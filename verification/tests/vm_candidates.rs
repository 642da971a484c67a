use cf::vm_candidates::{count_cases, extract_vm_candidates, find_block_end, wrap_for_parser};

fn vm_block(cases: usize) -> String {
    let mut body = String::new();
    for k in 0..cases {
        body.push_str(&format!("case {}: this.a = this.h[this.g ^ {}]; break; ", k, k + 50));
    }
    format!("switch (I[D++]) {{ {}}}", body)
}

#[test]
fn block_end_follows_braces_and_skips_strings() {
    let text = "x; switch (a[i]) { case 1: s = \"}\"; if (b) { c(); } break; } tail";
    let start = text.find("switch").unwrap();
    let end = find_block_end(text, start).unwrap();
    assert_eq!(&text[end..], " tail");
}

#[test]
fn block_end_skips_escaped_quotes() {
    let text = "switch (a[i]) { case 1: s = 'it\\'s }'; break; }!";
    let end = find_block_end(text, 0).unwrap();
    assert_eq!(&text[end..], "!");
}

#[test]
fn unclosed_block_has_no_end() {
    assert_eq!(find_block_end("switch (a[i]) { case 1: {", 0), None);
    assert_eq!(find_block_end("no switch here", 0), None);
}

#[test]
fn case_labels_are_counted() {
    assert_eq!(count_cases("case 0: case 1: case 2: break;"), 3);
    assert_eq!(count_cases("CASE '7': case\"8\" : case x:"), 2);
    assert_eq!(count_cases(""), 0);
}

#[test]
fn candidates_are_sorted_by_case_count() {
    let small = vm_block(3);
    let large = vm_block(6);
    let js = format!("function f() {{ {} }} function g() {{ {} }}", small, large);
    let cands = extract_vm_candidates(&js).unwrap();
    assert_eq!(cands.len(), 2);
    assert_eq!(cands[0].case_count, 6);
    assert_eq!(cands[1].case_count, 3);
    assert_eq!(cands[0].block, large);
    assert_eq!(&js[cands[0].start..cands[0].end], large);
}

#[test]
fn small_or_few_case_blocks_are_not_candidates() {
    let two_cases = vm_block(2);
    assert!(extract_vm_candidates(&two_cases).unwrap().is_empty());
    let short = "switch (a[0]) { case 1: case 2: case 3: }";
    assert!(extract_vm_candidates(short).unwrap().is_empty());
    let plain = format!("{}", vm_block(5).replace("switch (I[D++])", "switch (x)"));
    assert!(extract_vm_candidates(&plain).unwrap().is_empty());
}

#[test]
fn wrapped_block_is_a_function() {
    let block = "switch (x) { case 0: break; }";
    let wrapped = wrap_for_parser(block);
    assert!(wrapped.contains("function VM()"));
    assert!(wrapped.contains(block));
    assert_eq!(wrapped, "function VM() {\nswitch (x) { case 0: break; }\n}");
}

#[test]
fn equal_case_counts_keep_source_order() {
    let first = vm_block(4);
    let second = vm_block(4).replace("I[D++]", "J[E++]");
    let js = format!("function f() {{ {} }} function g() {{ {} }}", first, second);
    let cands = extract_vm_candidates(&js).unwrap();
    assert_eq!(cands.len(), 2);
    assert!(cands[0].start < cands[1].start);
    assert_eq!(cands[0].block, first);
}
