use vcfviewer::listfile::{AnnotationList, ListKind};
use vcfviewer::reconcile::reconcile_text;

fn entries(list: &AnnotationList) -> Vec<String> {
    list.entries
        .iter()
        .map(|e| String::from_utf8(e.clone()).unwrap())
        .collect()
}

fn list_of(text: &str) -> AnnotationList {
    AnnotationList::parse(text.as_bytes())
}

#[test]
fn toggle_twice_equals_toggle_once() {
    let mut once = list_of("A\nB");
    once.apply_batch(b"C", true);
    let mut twice = list_of("A\nB");
    twice.apply_batch(b"C", true);
    twice.apply_batch(b"C", true);
    assert_eq!(entries(&once), vec!["A", "B", "C"]);
    assert_eq!(entries(&twice), entries(&once));
}

#[test]
fn toggle_batch_twice_adds_nothing_more() {
    let mut list = list_of("");
    list.apply_batch(b"X\nY", true);
    let first = entries(&list);
    list.apply_batch(b"X\nY", true);
    assert_eq!(first, vec!["X", "Y"]);
    assert_eq!(entries(&list), first);
}

#[test]
fn reconciled_file_reads_back_as_memory_state() {
    let content = b"chr1\t100\tA\nchr2\t200\tG";
    let mut memory = AnnotationList::parse(content);
    memory.apply_batch(b"chr3\nchr2", false);
    memory.apply_batch(b"chr9:1", true);
    let text = reconcile_text(&reconcile_text(content, b"chr3\nchr2", false), b"chr9:1", true);
    assert_eq!(text, b"chr1\t100\tA\nchr9\t1".to_vec());
    let back = AnnotationList::parse(&text);
    assert_eq!(entries(&back), vec!["chr1:100:A", "chr9:1"]);
    assert_eq!(entries(&back), entries(&memory));
}

#[test]
fn shorter_stored_entry_is_removed_by_longer_key() {
    let mut list = list_of("ABC\nXYZ");
    list.apply_batch(b"ABCD", false);
    assert_eq!(entries(&list), vec!["XYZ"]);
}

#[test]
fn shorter_stored_entry_is_recolored_by_longer_key() {
    let mut list = list_of("ABC\nXYZ");
    list.apply_batch(b"ABCD;;red", true);
    assert_eq!(entries(&list), vec!["ABCD;;red", "XYZ"]);
}

#[test]
fn shorter_stored_entry_blocks_adding_longer_key() {
    let mut list = list_of("ABC");
    list.apply_batch(b"ABCD", true);
    assert_eq!(entries(&list), vec!["ABC"]);
}

#[test]
fn longer_stored_entry_does_not_match_shorter_key() {
    let mut list = list_of("ABCD");
    list.apply_batch(b"ABC", true);
    assert_eq!(entries(&list), vec!["ABCD", "ABC"]);
}

#[test]
fn only_first_matching_entry_is_removed() {
    let mut list = list_of("A\nA\nB");
    list.apply_batch(b"A", false);
    assert_eq!(entries(&list), vec!["A", "B"]);
}

#[test]
fn first_field_is_matched_not_whole_entry() {
    let mut list = list_of("chr1\t100");
    list.apply_batch(b"chr1_long", false);
    assert_eq!(entries(&list), Vec::<String>::new());
}

#[test]
fn recolor_miss_leaves_list_unchanged() {
    let mut list = list_of("S1;;blue\nS2;;green");
    list.apply_batch(b"T9;;red", true);
    assert_eq!(entries(&list), vec!["S1;;blue", "S2;;green"]);
    list.apply_batch(b"T9;;red", false);
    assert_eq!(entries(&list), vec!["S1;;blue", "S2;;green"]);
}

#[test]
fn recolor_ignores_active_flag() {
    let mut list = list_of("S1");
    list.apply_batch(b"S1;;red", false);
    assert_eq!(entries(&list), vec!["S1;;red"]);
}

#[test]
fn three_part_update_is_a_toggle_on_the_whole_string() {
    let mut list = list_of("");
    list.apply_batch(b"a;;b;;c", true);
    assert_eq!(entries(&list), vec!["a;;b;;c"]);
    let mut other = list_of("a;;b\nz");
    other.apply_batch(b"a;;b;;c", false);
    assert_eq!(entries(&other), vec!["z"]);
}

#[test]
fn odd_semicolons_still_split_in_two() {
    let mut list = list_of("a");
    list.apply_batch(b"a;;;b", true);
    assert_eq!(entries(&list), vec!["a;;;b"]);
}

#[test]
fn batch_sees_earlier_sub_updates() {
    let mut list = AnnotationList::new();
    list.apply_batch(b"X\nX", true);
    assert_eq!(entries(&list), vec!["X"]);
}

#[test]
fn batch_toggle_then_recolor_same_key() {
    let mut list = AnnotationList::new();
    list.apply_batch(b"S1\nS1;;red", true);
    assert_eq!(entries(&list), vec!["S1;;red"]);
}

#[test]
fn remove_of_absent_entry_is_a_no_op() {
    let mut list = list_of("A");
    list.apply_batch(b"B", false);
    assert_eq!(entries(&list), vec!["A"]);
}

#[test]
fn empty_sub_update_matches_only_empty_first_field() {
    let mut list = list_of("A\n\tx\nB");
    list.apply_batch(b"", false);
    assert_eq!(entries(&list), vec!["A", "B"]);
    list.apply_batch(b"", false);
    assert_eq!(entries(&list), vec!["A", "B"]);
}

#[test]
fn reconcile_without_prior_file_writes_one_line() {
    let text = reconcile_text(b"", b"sig1", true);
    assert_eq!(text, b"sig1".to_vec());
}

#[test]
fn concurrent_reconciliations_last_writer_wins() {
    let snapshot = b"base";
    let first = reconcile_text(snapshot, b"sigA", true);
    let second = reconcile_text(snapshot, b"sigB", true);
    assert_eq!(first, b"base\nsigA".to_vec());
    assert_eq!(second, b"base\nsigB".to_vec());
    let on_disk = second;
    assert_eq!(entries(&AnnotationList::parse(&on_disk)), vec!["base", "sigB"]);
}

#[test]
fn parse_drops_trailing_tab_and_joins_fields_with_colons() {
    let list = list_of("a\tb\t\nc\t\td\n");
    assert_eq!(entries(&list), vec!["a:b", "c::d"]);
}

#[test]
fn parse_strips_carriage_return_before_newline() {
    let list = list_of("a\r\nb\r");
    assert_eq!(entries(&list), vec!["a", "b\r"]);
}

#[test]
fn parse_keeps_inner_empty_lines() {
    let list = list_of("a\n\nb");
    assert_eq!(entries(&list), vec!["a", "", "b"]);
    assert_eq!(list.len(), 3);
    assert_eq!(list.entry(2), b"b");
}

#[test]
fn parse_of_empty_text_is_empty() {
    assert_eq!(list_of("").len(), 0);
    assert_eq!(list_of("\n").len(), 1);
}

#[test]
fn colons_are_written_as_tabs() {
    let text = reconcile_text(b"", b"chr1:12:A:T", true);
    assert_eq!(text, b"chr1\t12\tA\tT".to_vec());
}

#[test]
fn to_text_joins_lines_without_final_newline() {
    let list = list_of("x:1\ny\n");
    assert_eq!(list.to_text(), b"x\t1\ny".to_vec());
    assert_eq!(AnnotationList::new().to_text(), Vec::<u8>::new());
}

#[test]
fn list_kinds_by_name() {
    assert_eq!(ListKind::from_name("whitelist"), Some(ListKind::Whitelist));
    assert_eq!(ListKind::from_name("blacklist"), Some(ListKind::Blacklist));
    assert_eq!(ListKind::from_name("sample_color"), Some(ListKind::SampleColor));
    assert_eq!(ListKind::from_name("greylist"), None);
    assert_eq!(ListKind::from_name(""), None);
}

#[test]
fn list_kind_extensions() {
    assert_eq!(ListKind::Whitelist.file_extension(), "whitelist.tsv");
    assert_eq!(ListKind::Blacklist.file_extension(), "blacklist.tsv");
    assert_eq!(ListKind::SampleColor.file_extension(), "sample_color.tsv");
    assert_eq!(
        ListKind::all(),
        vec![ListKind::Whitelist, ListKind::Blacklist, ListKind::SampleColor]
    );
}
