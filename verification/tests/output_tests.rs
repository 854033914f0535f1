use rust_repos::data::Repo;
use rust_repos::output::render_csv_append;

fn repo(id: &str, name: &str, toml: bool, lock: bool) -> Repo {
    Repo {
        id: id.to_string(),
        name: name.to_string(),
        has_cargo_toml: toml,
        has_cargo_lock: lock,
    }
}

const HEADER: &str = "id,name,has_cargo_toml,has_cargo_lock\n";

#[test]
fn header_written_only_on_fresh_file() {
    let rows = vec![repo("R1", "owner/one", true, false)];
    let first = render_csv_append(false, &rows);
    let rows2 = vec![repo("R2", "owner/two", false, true)];
    let second = render_csv_append(true, &rows2);

    let first_text = String::from_utf8(first.clone()).unwrap();
    let second_text = String::from_utf8(second.clone()).unwrap();
    assert!(first_text.starts_with(HEADER));
    assert!(!second_text.contains("id,name"));

    let mut file = first;
    file.extend_from_slice(&second);
    let text = String::from_utf8(file).unwrap();
    assert_eq!(text.matches(HEADER).count(), 1);
    assert_eq!(
        text,
        "id,name,has_cargo_toml,has_cargo_lock\nR1,owner/one,true,false\nR2,owner/two,false,true\n"
    );
}

#[test]
fn empty_flush_on_fresh_file_still_writes_header() {
    let out = render_csv_append(false, &Vec::new());
    assert_eq!(String::from_utf8(out).unwrap(), HEADER);
}

#[test]
fn empty_flush_on_existing_file_writes_nothing() {
    let out = render_csv_append(true, &Vec::new());
    assert!(out.is_empty());
}

#[test]
fn fields_with_specials_are_quoted() {
    let rows = vec![
        repo("A,B", "owner/comma", false, false),
        repo("Q\"Q", "owner/quote", false, false),
        repo("L\nL", "owner/newline", true, true),
    ];
    let out = render_csv_append(true, &rows);
    let text = String::from_utf8(out).unwrap();
    let lines: Vec<&str> = text.split('\n').collect();
    assert_eq!(lines[0], "\"A,B\",owner/comma,false,false");
    assert_eq!(lines[1], "\"Q\"\"Q\",owner/quote,false,false");
    assert_eq!(lines[2], "\"L");
    assert_eq!(lines[3], "L\",owner/newline,true,true");
}

#[test]
fn output_round_trips_through_a_csv_reader() {
    let rows = vec![
        repo("MDEwOlJlcG9zaXRvcnk1", "owner/plain", true, false),
        repo("id,with,commas", "owner/we\"ird\nname", false, true),
    ];
    let bytes = render_csv_append(false, &rows);
    let mut reader = csv::ReaderBuilder::new().has_headers(true).from_reader(&bytes[..]);
    let headers = reader.headers().unwrap().clone();
    assert_eq!(
        headers.iter().collect::<Vec<_>>(),
        vec!["id", "name", "has_cargo_toml", "has_cargo_lock"]
    );
    let records: Vec<csv::StringRecord> = reader.records().map(|r| r.unwrap()).collect();
    assert_eq!(records.len(), 2);
    assert_eq!(&records[0][0], "MDEwOlJlcG9zaXRvcnk1");
    assert_eq!(&records[0][1], "owner/plain");
    assert_eq!(&records[0][2], "true");
    assert_eq!(&records[0][3], "false");
    assert_eq!(&records[1][0], "id,with,commas");
    assert_eq!(&records[1][1], "owner/we\"ird\nname");
    assert_eq!(&records[1][2], "false");
    assert_eq!(&records[1][3], "true");
}

#[test]
fn output_matches_what_a_csv_writer_would_emit() {
    let rows = vec![
        repo("R1", "owner/one", true, false),
        repo("com,ma", "qu\"ote", false, true),
    ];
    let ours = render_csv_append(true, &rows);

    let mut writer = csv::WriterBuilder::new().has_headers(false).from_writer(Vec::new());
    for r in &rows {
        writer
            .write_record(&[
                r.id.as_str(),
                r.name.as_str(),
                if r.has_cargo_toml { "true" } else { "false" },
                if r.has_cargo_lock { "true" } else { "false" },
            ])
            .unwrap();
    }
    let theirs = writer.into_inner().unwrap();
    assert_eq!(ours, theirs);
}
