use data_pipeline::multi_extract::{multi_extract, ExtractError};
use data_pipeline::pipeline::{count_keys, Pipeline, PipelineStats};
use data_pipeline::source::CsvReader;
use data_pipeline::user::generate_user;

fn semi_text(names: &[&str]) -> Vec<u8> {
    let mut s = String::from("username;identifier;first_name;last_name\n");
    for (i, n) in names.iter().enumerate() {
        s.push_str(&format!("{};{};F{};L{}\n", n, i, i, i));
    }
    s.into_bytes()
}

fn pipeline_of(v: Vec<u32>) -> Pipeline<u32> {
    Pipeline { data: v, stats: PipelineStats::new() }
}

#[test]
fn extract_reads_all_rows() {
    let p = Pipeline::extract(&semi_text(&["alice", "bob", "carol"]));
    assert_eq!(p.data.len(), 3);
    assert_eq!(p.data[1].get(0), "bob");
    assert_eq!(p.stats.total_extracted, 3);
    assert_eq!(p.stats.total_transformed, 0);
    assert_eq!(p.stats.total_filtered, 0);
    assert!(p.stats.errors().is_empty());
}

#[test]
fn extract_records_parse_errors_and_goes_on() {
    let text = b"a;b\n1;2\n3\n4;5\n".to_vec();
    let p = Pipeline::extract(&text);
    assert_eq!(p.data.len(), 2);
    assert_eq!(p.stats.total_extracted, 2);
    assert_eq!(p.stats.errors().len(), 1);
    assert!(p.stats.errors()[0].starts_with("1 record parse error: "));
}

#[test]
fn transform_keeps_length_and_positions() {
    let p = pipeline_of(vec![1, 2, 3, 4]).transform(|x: u32| x.wrapping_mul(10));
    assert_eq!(p.data, vec![10, 20, 30, 40]);
    assert_eq!(p.stats.total_transformed, 4);
}

#[test]
fn transform_rows_into_users() {
    let p = Pipeline::extract(&semi_text(&["alice", "bob"])).transform(generate_user);
    assert_eq!(p.data[0].username, "alice");
    assert_eq!(p.data[1].first_name, "F1");
    assert_eq!(p.stats.total_extracted, 2);
    assert_eq!(p.stats.total_transformed, 2);
}

#[test]
fn filter_keeps_order_and_counts_kept() {
    let p = pipeline_of(vec![5, 2, 8, 1, 6]).filter(|x: &u32| *x > 4);
    assert_eq!(p.data, vec![5, 8, 6]);
    assert_eq!(p.stats.total_filtered, 3);
}

#[test]
fn filter_keeping_nothing() {
    let p = pipeline_of(vec![1, 2]).filter(|_x: &u32| false);
    assert!(p.data.is_empty());
    assert_eq!(p.stats.total_filtered, 0);
}

#[test]
fn aggregate_counts_sum_to_length() {
    let m = pipeline_of(vec![1, 2, 3, 4, 5, 6, 7]).aggregate(|x: &u32| (*x % 3) as u64);
    assert_eq!(m.len(), 3);
    assert_eq!(m[&0], 2);
    assert_eq!(m[&1], 3);
    assert_eq!(m[&2], 2);
    assert_eq!(m.values().sum::<usize>(), 7);
}

#[test]
fn aggregate_of_empty_is_empty() {
    let m = pipeline_of(vec![]).aggregate(|x: &u32| *x as u64);
    assert!(m.is_empty());
}

#[test]
fn counting_in_parts_equals_counting_whole() {
    let keys: Vec<u64> = vec![1, 1, 2, 3, 3, 3, 4];
    let whole = count_keys(keys.clone());
    let left = count_keys(keys[..3].to_vec());
    let right = count_keys(keys[3..].to_vec());
    let mut summed = left.clone();
    for (k, v) in right {
        *summed.entry(k).or_insert(0) += v;
    }
    assert_eq!(whole, summed);
}

#[test]
fn merge_concatenates_and_sums() {
    let mut a = pipeline_of(vec![1, 2]);
    a.stats.total_extracted = 2;
    let mut b = pipeline_of(vec![3]);
    b.stats.total_extracted = 1;
    b.stats.total_filtered = 1;
    let m = a.merge(b);
    assert_eq!(m.data, vec![1, 2, 3]);
    assert_eq!(m.stats.total_extracted, 3);
    assert_eq!(m.stats.total_filtered, 1);
}

#[test]
fn merge_is_associative() {
    let left = pipeline_of(vec![1]).merge(pipeline_of(vec![2, 3])).merge(pipeline_of(vec![4]));
    let right = pipeline_of(vec![1]).merge(pipeline_of(vec![2, 3]).merge(pipeline_of(vec![4])));
    assert_eq!(left.data, right.data);
    assert_eq!(left.data.len(), 4);
}

#[test]
fn combine_joins_errors_in_order() {
    let a = Pipeline::extract(&b"a;b\n1\n".to_vec()).stats;
    let b = Pipeline::extract(&b"a;b\n1;2\n3\n".to_vec()).stats;
    let c = a.combine(b);
    assert_eq!(c.errors().len(), 2);
    assert!(c.errors()[0].starts_with("0 record parse error"));
    assert!(c.errors()[1].starts_with("1 record parse error"));
    assert_eq!(c.total_extracted, 1);
}

#[test]
fn multi_extract_joins_sources_in_order() {
    let p = multi_extract(&[semi_text(&["a1", "a2"]), semi_text(&[]), semi_text(&["c1"])]).unwrap();
    let names: Vec<&str> = p.data.iter().map(|r| r.get(0)).collect();
    assert_eq!(names, vec!["a1", "a2", "c1"]);
    assert_eq!(p.stats.total_extracted, 3);
}

#[test]
fn multi_extract_without_sources_fails() {
    assert!(matches!(multi_extract(&[]), Err(ExtractError::NoSources)));
}

#[test]
fn extract_and_chunked_read_agree() {
    let names = ["u0", "u1", "u2", "u3", "u4"];
    let whole = Pipeline::extract(&semi_text(&names));
    let mut reader = CsvReader::new(&semi_text(&names), 2);
    let mut chunked = Vec::new();
    while let Some(c) = reader.next() {
        for r in c {
            chunked.push(r.get(0).to_string());
        }
    }
    let whole_names: Vec<String> = whole.data.iter().map(|r| r.get(0).to_string()).collect();
    assert_eq!(chunked, whole_names);
}
