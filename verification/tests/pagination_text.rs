use blob_mirror::pagination::{
    creation_pages, effective_page_count, overflow_suffix, paginate, render_update_bodies,
    slice_slot, truncate_to_budget, SlotBody,
};
use blob_mirror::MESSAGE_MAX_LENGTH;

fn text_of(slot: &SlotBody) -> Option<&[u8]> {
    match slot {
        SlotBody::Text(b) => Some(b.as_slice()),
        SlotBody::Placeholder => None,
    }
}

#[test]
fn short_content_fills_slot_zero_and_leaves_a_placeholder() {
    // two slots of capacity 10 over "short": slot 0 shows "short",
    // slot 1 is rendered as a placeholder, not skipped
    let text = b"short".to_vec();
    let slots = paginate(&text, 2, 10);
    assert_eq!(slots.len(), 2);
    assert_eq!(text_of(&slots[0]), Some(&b"short"[..]));
    assert_eq!(text_of(&slots[1]), None);
}

#[test]
fn slots_are_consecutive_slices_of_capacity_bytes() {
    let text = b"abcdefghijklmnopqrstuvwxy".to_vec(); // 25 bytes
    let slots = paginate(&text, 4, 10);
    assert_eq!(text_of(&slots[0]), Some(&b"abcdefghij"[..]));
    assert_eq!(text_of(&slots[1]), Some(&b"klmnopqrst"[..]));
    assert_eq!(text_of(&slots[2]), Some(&b"uvwxy"[..]));
    assert_eq!(text_of(&slots[3]), None);
}

#[test]
fn slot_starting_exactly_at_the_end_is_empty_not_placeholder() {
    let text = b"abcdefghij".to_vec(); // 10 bytes
    let slot = slice_slot(&text, 1, 10);
    assert_eq!(text_of(&slot), Some(&b""[..]));
    let beyond = slice_slot(&text, 2, 10);
    assert_eq!(text_of(&beyond), None);
}

#[test]
fn empty_content_renders_one_empty_slot_then_placeholders() {
    let text = Vec::new();
    let slots = paginate(&text, 2, 10);
    assert_eq!(text_of(&slots[0]), Some(&b""[..]));
    assert_eq!(text_of(&slots[1]), None);
}

#[test]
fn truncation_cuts_exactly_at_budget_minus_suffix() {
    // 23 bytes of text, budget 2 * 10 = 20, suffix of 6 bytes:
    // cut at 14 bytes, suffix appended, total exactly 20
    let text = b"aaaaabbbbbcccccdddddeee".to_vec();
    let suffix = b"~MORE~".to_vec();
    let t = truncate_to_budget(&text, 20, &suffix);
    assert_eq!(t, b"aaaaabbbbbcccc~MORE~".to_vec());
    // concatenating the slices reproduces the truncated text
    let slots = paginate(&t, 2, 10);
    let mut joined = Vec::new();
    for s in &slots {
        if let Some(b) = text_of(s) {
            joined.extend_from_slice(b);
        }
    }
    assert_eq!(joined, t);
}

#[test]
fn text_within_budget_is_not_truncated() {
    let text = b"fits".to_vec();
    let t = truncate_to_budget(&text, 20, &b"~MORE~".to_vec());
    assert_eq!(t, text);
}

#[test]
fn truncation_never_splits_a_multi_byte_unit() {
    // a three-byte unit starts at offset 4 and would be split by a cut at 5
    let text = b"abcd\xe2\x82\xacxyz".to_vec();
    let suffix = b"!".to_vec();
    // budget 6, suffix 1: the plain cut point 5 lands on a continuation
    // byte, so the cut backs off to 4
    let t = truncate_to_budget(&text, 6, &suffix);
    assert_eq!(t, b"abcd!".to_vec());
}

#[test]
fn overflow_suffix_wraps_the_url() {
    let suffix = overflow_suffix(&b"u".to_vec());
    assert_eq!(suffix, "\u{2026}\nSee <u> for more".as_bytes().to_vec());
}

#[test]
fn render_update_bodies_truncates_and_partitions() {
    let text = b"0123456789012345678901234".to_vec(); // 25 bytes
    let suffix = b"#ref#".to_vec(); // 5 bytes
    let slots = render_update_bodies(&text, 2, 10, &suffix);
    assert_eq!(slots.len(), 2);
    // budget 20, cut at 15, suffix appended
    assert_eq!(text_of(&slots[0]), Some(&b"0123456789"[..]));
    assert_eq!(text_of(&slots[1]), Some(&b"01234#ref#"[..]));
}

#[test]
fn effective_page_count_never_under_allocates() {
    // a 5000-byte file at capacity 2000 needs 3 pages even when 1 is asked
    assert_eq!(effective_page_count(5000, Some(1), 2000), 3);
    assert_eq!(effective_page_count(5000, None, 2000), 3);
    // an explicit larger request is honored
    assert_eq!(effective_page_count(4000, Some(5), 2000), 5);
    // exact multiples round to the exact quotient
    assert_eq!(effective_page_count(4000, None, 2000), 2);
    // empty content still gets the one default page
    assert_eq!(effective_page_count(0, None, 2000), 1);
    assert_eq!(effective_page_count(1, None, MESSAGE_MAX_LENGTH), 1);
}

#[test]
fn creation_pages_for_a_five_thousand_byte_file() {
    // mirror group created with an explicit page count of 1 over a
    // 5000-byte file at capacity 2000: three messages are sent
    let content = vec![b'x'; 5000];
    let slots = creation_pages(&content, Some(1), 2000);
    assert_eq!(slots.len(), 3);
    assert_eq!(text_of(&slots[0]).unwrap().len(), 2000);
    assert_eq!(text_of(&slots[1]).unwrap().len(), 2000);
    assert_eq!(text_of(&slots[2]).unwrap().len(), 1000);
}
