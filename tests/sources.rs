use data_pipeline::record::Record;
use data_pipeline::source::{CsvReader, MultiCsvReader};
use data_pipeline::user::generate_user;

fn row_text(n: usize) -> Vec<u8> {
    let mut s = String::from("username;identifier;first_name;last_name\n");
    for i in 0..n {
        s.push_str(&format!("user{};{};First{};Last{}\n", i, i, i, i));
    }
    s.into_bytes()
}

fn sizes(mut reader: CsvReader) -> Vec<usize> {
    let mut out = Vec::new();
    while let Some(chunk) = reader.next() {
        out.push(chunk.len());
    }
    out
}

#[test]
fn test_extract_chunk() {
    let reader = CsvReader::new(&row_text(1200), 500);
    let mut i = 0;
    let mut reader = reader;
    let mut total = 0;
    while let Some(chunk) = reader.next() {
        println!("Chunk {}: {} records", i, chunk.len());
        total += chunk.len();
        i += 1;
    }
    assert_eq!(i, 3);
    assert_eq!(total, 1200);
}

#[test]
fn chunks_are_bounded_and_last_is_shorter() {
    assert_eq!(sizes(CsvReader::new(&row_text(5), 2)), vec![2, 2, 1]);
    assert_eq!(sizes(CsvReader::new(&row_text(4), 2)), vec![2, 2]);
    assert_eq!(sizes(CsvReader::new(&row_text(0), 3)), Vec::<usize>::new());
}

#[test]
fn chunked_rows_keep_source_order() {
    let mut reader = CsvReader::new(&row_text(7), 3);
    let mut names = Vec::new();
    while let Some(chunk) = reader.next() {
        for r in chunk {
            names.push(r.get(0).to_string());
        }
    }
    let expected: Vec<String> = (0..7).map(|i| format!("user{}", i)).collect();
    assert_eq!(names, expected);
}

#[test]
fn failed_row_ends_the_chunk_and_is_dropped() {
    let text = b"a;b\n1;2\n3\n4;5\n6;7\n".to_vec();
    let mut reader = CsvReader::new(&text, 10);
    let first = reader.next().unwrap();
    assert_eq!(first.len(), 1);
    assert_eq!(first[0].get(0), "1");
    let second = reader.next().unwrap();
    assert_eq!(second.len(), 2);
    assert_eq!(second[0].get(0), "4");
    assert!(reader.next().is_none());
}

#[test]
fn multi_source_skips_empty_source() {
    let a = row_text(3);
    let b = row_text(0);
    let c = row_text(2);
    let mut reader = MultiCsvReader::new(&[a, b, c], 10);
    let mut got = Vec::new();
    while let Some(chunk) = reader.next() {
        got.push(chunk.len());
    }
    assert_eq!(got, vec![3, 2]);
}

#[test]
fn multi_source_keeps_source_order() {
    let a = b"h\nx\ny\n".to_vec();
    let c = b"h\nz\n".to_vec();
    let mut reader = MultiCsvReader::new(&[a, c], 1);
    let mut got = Vec::new();
    while let Some(chunk) = reader.next() {
        got.push(chunk[0].get(0).to_string());
    }
    assert_eq!(got, vec!["x", "y", "z"]);
}

#[test]
fn missing_field_reads_as_empty() {
    let r = Record::new(vec!["bob".to_string(), "7".to_string()]);
    assert_eq!(r.get(0), "bob");
    assert_eq!(r.get(3), "");
    let u = generate_user(r);
    assert_eq!(u.username, "bob");
    assert_eq!(u.identifier, "7");
    assert_eq!(u.first_name, "");
    assert_eq!(u.last_name, "");
}
