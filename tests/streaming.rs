use data_pipeline::multi_extract::multi_extract_streaming;
use data_pipeline::stream::{LoadError, LoggedPort, OutputPort, StreamingPipeline};
use data_pipeline::user::{generate_user, User};

fn row_text(n: usize) -> Vec<u8> {
    let mut s = String::from("username;identifier;first_name;last_name\n");
    for i in 0..n {
        s.push_str(&format!("user{};{};First{};Last{}\n", i, i, i, i));
    }
    s.into_bytes()
}

struct Collect {
    calls: Vec<usize>,
    stored: Vec<String>,
    fail_on_call: Option<usize>,
}

impl OutputPort<User> for Collect {
    fn write(&mut self, data: &[User]) -> Result<(), String> {
        self.calls.push(data.len());
        if self.fail_on_call == Some(self.calls.len()) {
            return Err("sink down".to_string());
        }
        for u in data {
            self.stored.push(u.username.clone());
        }
        Ok(())
    }
}

fn sink(fail_on_call: Option<usize>) -> Collect {
    Collect { calls: Vec::new(), stored: Vec::new(), fail_on_call }
}

#[test]
fn test_streaming_pipeline_full() {
    let total_user: usize = 43000;
    let mut out = LoggedPort::new(sink(None));
    let stats = StreamingPipeline::extract_streaming(&row_text(total_user), 1000)
        .transform(generate_user)
        .filter(|user: &User| user.is_valid().is_ok())
        .load(&mut out)
        .unwrap();
    assert_eq!(stats.total_filtered, total_user);
    assert_eq!(out.port.stored.len(), total_user);
}

#[test]
fn load_issues_one_call_per_chunk() {
    let mut out = LoggedPort::new(sink(None));
    let stats = StreamingPipeline::extract_streaming(&row_text(5), 2)
        .transform(generate_user)
        .load(&mut out)
        .unwrap();
    assert_eq!(out.port.calls, vec![2, 2, 1]);
    assert_eq!(stats.total_filtered, 5);
}

#[test]
fn load_stops_at_failing_sink() {
    let mut out = LoggedPort::new(sink(Some(2)));
    let r = StreamingPipeline::extract_streaming(&row_text(5), 2).transform(generate_user).load(&mut out);
    assert_eq!(r.unwrap_err(), LoadError::Sink("sink down".to_string()));
    assert_eq!(out.port.calls, vec![2, 2]);
    assert_eq!(out.port.stored, vec!["user0", "user1"]);
}

#[test]
fn streaming_filter_drops_invalid_per_chunk() {
    let text = b"username;identifier;first_name;last_name\nab;1;a;b\nabc;2;a;b\n;3;a;b\nabcd;4;a;b\n".to_vec();
    let mut out = LoggedPort::new(sink(None));
    let stats = StreamingPipeline::extract_streaming(&text, 2)
        .transform(generate_user)
        .filter(|u: &User| u.is_valid().is_ok())
        .load(&mut out)
        .unwrap();
    assert_eq!(out.port.calls, vec![1, 1]);
    assert_eq!(out.port.stored, vec!["abc", "abcd"]);
    assert_eq!(stats.total_filtered, 2);
}

#[test]
fn multi_source_streaming_load() {
    let mut out = LoggedPort::new(sink(None));
    let stats = multi_extract_streaming(&[row_text(3), row_text(0), row_text(2)], 10)
        .unwrap()
        .transform(generate_user)
        .load(&mut out)
        .unwrap();
    assert_eq!(out.port.calls, vec![3, 2]);
    assert_eq!(stats.total_filtered, 5);
}

#[test]
fn multi_source_streaming_without_sources_fails() {
    assert!(multi_extract_streaming(&[], 10).is_err());
}

#[test]
fn load_reports_count_overflow() {
    let mut p = StreamingPipeline::extract_streaming(&row_text(5), 2).transform(generate_user);
    p.stats.total_filtered = usize::MAX - 2;
    let mut out = LoggedPort::new(sink(None));
    let r = p.load(&mut out);
    assert_eq!(r.unwrap_err(), LoadError::CountOverflow);
    assert_eq!(out.port.calls, vec![2, 2]);
}
