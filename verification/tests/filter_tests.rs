use tag_filter::{is_sound_or_img_tag, process_xml, Event, OtherKind, ProcessError, RecordFilter};

fn start(name: &str) -> Event {
    Event::Start { name: name.to_string(), attrs: String::new() }
}

fn start_with(name: &str, attrs: &str) -> Event {
    Event::Start { name: name.to_string(), attrs: attrs.to_string() }
}

fn end(name: &str) -> Event {
    Event::End { name: name.to_string() }
}

fn text(content: &str) -> Event {
    Event::Text { content: content.to_string() }
}

fn comment(content: &str) -> Event {
    Event::Other { kind: OtherKind::Comment, content: content.to_string() }
}

fn words(ws: &[&str]) -> Vec<String> {
    ws.iter().map(|w| w.to_string()).collect()
}

fn record(stimulus_tag: &str, stimulus_text: &str) -> Vec<Event> {
    vec![
        start_with("tag", " name=\"x\""),
        start(stimulus_tag),
        text(stimulus_text),
        end(stimulus_tag),
        end("tag"),
    ]
}

fn document(records: Vec<Vec<Event>>) -> Vec<Event> {
    let mut events = vec![start("tags")];
    for r in records {
        events.extend(r);
    }
    events.push(end("tags"));
    events
}

#[test]
fn stimulus_tag_names() {
    assert!(is_sound_or_img_tag("nazw_obr"));
    assert!(is_sound_or_img_tag("nazw_dz"));
    assert!(!is_sound_or_img_tag("nazw"));
    assert!(!is_sound_or_img_tag("tag"));
}

#[test]
fn document_without_collection_passes_through() {
    let events = vec![comment("header"), start("root"), text("hello"), end("root")];
    let expected = vec![comment("header"), start("root"), text("hello"), end("root")];
    let result = process_xml(&events, words(&["hello"]));
    assert_eq!(result.unwrap(), expected);
}

#[test]
fn empty_collection_passes_through() {
    let events = vec![start("root"), start("tags"), end("tags"), end("root")];
    let expected = vec![start("root"), start("tags"), end("tags"), end("root")];
    let result = process_xml(&events, words(&["hello"]));
    assert_eq!(result.unwrap(), expected);
}

#[test]
fn no_match_keeps_every_record() {
    let events = document(vec![
        record("nazw_obr", "zabawka_lalka_czerwona"),
        record("nazw_dz", "pilka_niebieska"),
    ]);
    let expected = document(vec![
        record("nazw_obr", "zabawka_lalka_czerwona"),
        record("nazw_dz", "pilka_niebieska"),
    ]);
    let result = process_xml(&events, words(&["miecz"]));
    assert_eq!(result.unwrap(), expected);
}

#[test]
fn matching_pair_is_dropped_whole() {
    // The paired policy: the first record matches, and the non-matching
    // second record of the pair is dropped with it.
    let events = document(vec![
        record("nazw_obr", "zabawka_lalka_czerwona"),
        record("nazw_dz", "pilka_niebieska"),
    ]);
    let expected = vec![start("tags"), end("tags")];
    let result = process_xml(&events, words(&["lalka"]));
    assert_eq!(result.unwrap(), expected);
}

#[test]
fn match_in_second_record_also_drops_the_pair() {
    let events = document(vec![
        record("nazw_obr", "zabawka_lalka_czerwona"),
        record("nazw_dz", "pilka_niebieska"),
    ]);
    let expected = vec![start("tags"), end("tags")];
    let result = process_xml(&events, words(&["pilka"]));
    assert_eq!(result.unwrap(), expected);
}

#[test]
fn unmatched_pair_survives_beside_a_dropped_pair() {
    let events = document(vec![
        record("nazw_obr", "zabawka_lalka_czerwona"),
        record("nazw_dz", "pilka_niebieska"),
        record("nazw_obr", "miecz_zielony"),
        record("nazw_dz", "kubek_bialy"),
    ]);
    let expected = document(vec![
        record("nazw_obr", "miecz_zielony"),
        record("nazw_dz", "kubek_bialy"),
    ]);
    let result = process_xml(&events, words(&["lalka"]));
    assert_eq!(result.unwrap(), expected);
}

#[test]
fn escaped_text_is_unescaped_before_matching() {
    // The stimulus text "A&amp;B" must be compared as "A&B".
    let events = document(vec![
        record("nazw_obr", "A&amp;B"),
        record("nazw_dz", "pilka"),
    ]);
    let expected = vec![start("tags"), end("tags")];
    let result = process_xml(&events, words(&["A&B"]));
    assert_eq!(result.unwrap(), expected);
}

#[test]
fn malformed_escape_is_an_error() {
    let events = document(vec![
        record("nazw_obr", "&nosuchentity;"),
        record("nazw_dz", "pilka"),
    ]);
    let result = process_xml(&events, words(&["lalka"]));
    assert_eq!(result, Err(ProcessError::InvalidEscape));
}

#[test]
fn truncated_document_is_an_error() {
    // The final record has a start event and no matching end event.
    let events = vec![start("tags"), start_with("tag", " name=\"x\"")];
    let result = process_xml(&events, words(&["lalka"]));
    assert_eq!(result, Err(ProcessError::TruncatedDocument));
}

#[test]
fn stimulus_tag_without_text_is_an_error() {
    // A stimulus-name start event directly followed by another start event.
    let events = vec![
        start("tags"),
        start("tag"),
        start("nazw_obr"),
        start("nazw_dz"),
    ];
    let result = process_xml(&events, words(&["lalka"]));
    assert_eq!(result, Err(ProcessError::ExpectedTextAfterTag));
}

#[test]
fn content_between_records_travels_with_the_pair() {
    let mut r1 = record("nazw_obr", "miecz");
    r1.push(text("\n\t"));
    let events = document(vec![r1.clone(), record("nazw_dz", "kubek")]);
    let expected = document(vec![r1, record("nazw_dz", "kubek")]);
    let result = process_xml(&events, words(&["lalka"]));
    assert_eq!(result.unwrap(), expected);
}

#[test]
fn lone_record_stays_pending_until_the_collection_closes() {
    // The pairing policy: an odd final record is never resolved, and the
    // close of the collection discards it.
    let events = document(vec![record("nazw_obr", "miecz")]);
    let expected = vec![start("tags"), end("tags")];
    let result = process_xml(&events, words(&["lalka"]));
    assert_eq!(result.unwrap(), expected);
}

#[test]
fn filter_passes_events_through_outside_the_collection() {
    let mut filter = RecordFilter::new(words(&["lalka"]));
    let out = filter.step(start("root")).unwrap();
    assert_eq!(out, vec![start("root")]);
    assert!(filter.finish().is_ok());
}

#[test]
fn filter_buffers_inside_an_open_record() {
    let mut filter = RecordFilter::new(words(&["lalka"]));
    assert_eq!(filter.step(start("tags")).unwrap(), vec![start("tags")]);
    assert_eq!(filter.step(start("tag")).unwrap(), Vec::<Event>::new());
    assert_eq!(filter.finish(), Err(ProcessError::TruncatedDocument));
}
