use aligned_nearest_neighbor::nearest_neighbor::filter_records;
use aligned_nearest_neighbor::record::Record;

fn collection() -> Vec<Record> {
    vec![
        Record::new("a", b"AAAA"),
        Record::new("b", b"CCCC"),
        Record::new("c", b"GGGG"),
        Record::new("b", b"TTTT"),
    ]
}

fn ids(records: &[&Record]) -> Vec<String> {
    records.iter().map(|r| format!("{}:{}", r.id(), String::from_utf8_lossy(r.seq()))).collect()
}

#[test]
fn without_a_list_every_record_is_selected() {
    let records = collection();
    let all = filter_records(&records, None);
    assert_eq!(ids(&all), vec!["a:AAAA", "b:CCCC", "c:GGGG", "b:TTTT"]);
    let none: Vec<Record> = Vec::new();
    assert!(filter_records(&none, None).is_empty());
}

#[test]
fn listed_records_come_in_the_order_of_the_collection() {
    let records = collection();
    let chosen = filter_records(&records, Some(vec!["c".to_string(), "a".to_string()]));
    assert_eq!(ids(&chosen), vec!["a:AAAA", "c:GGGG"]);
}

#[test]
fn unknown_identifiers_are_ignored() {
    let records = collection();
    let list = vec!["zzz".to_string(), "c".to_string(), "".to_string(), "A".to_string()];
    let chosen = filter_records(&records, Some(list));
    assert_eq!(ids(&chosen), vec!["c:GGGG"]);
    let chosen = filter_records(&records, Some(vec!["nobody".to_string()]));
    assert!(chosen.is_empty());
}

#[test]
fn an_empty_list_selects_nothing() {
    let records = collection();
    assert!(filter_records(&records, Some(Vec::new())).is_empty());
}

#[test]
fn repeated_identifiers_count_once() {
    let records = collection();
    let list = vec!["a".to_string(), "a".to_string(), "a".to_string()];
    let chosen = filter_records(&records, Some(list));
    assert_eq!(ids(&chosen), vec!["a:AAAA"]);
}

#[test]
fn every_record_with_a_listed_identifier_is_selected() {
    let records = collection();
    let chosen = filter_records(&records, Some(vec!["b".to_string()]));
    assert_eq!(ids(&chosen), vec!["b:CCCC", "b:TTTT"]);
}

#[test]
fn selected_records_are_those_of_the_collection() {
    let records = collection();
    let chosen = filter_records(&records, Some(vec!["c".to_string()]));
    assert!(std::ptr::eq(chosen[0], &records[2]));
}
