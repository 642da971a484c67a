use cf::ma_strings::MaStringDecoder;

fn script_with_table(sep_call: &str, entries: &[&str], sep: &str, body: &str) -> String {
    let filler = "x".repeat(5001);
    let mut all: Vec<&str> = vec!["moVRS"];
    all.extend_from_slice(entries);
    all.push(&filler);
    format!("var t='{}'{};{}", all.join(sep), sep_call, body)
}

#[test]
fn decode_replaces_lookups_with_quoted_entries() {
    let code = script_with_table(".split(\"~\")", &["hello", "wor\"ld", "back\\slash"], "~", "f(Ma(1),Ma(2),Ma(3),Ma(0));");
    let out = MaStringDecoder::decode(&code);
    assert!(out.ends_with("f(\"hello\",\"wor\\\"ld\",\"back\\\\slash\",\"moVRS\");"));
}

#[test]
fn extract_reads_the_separator_from_single_quotes() {
    let code = script_with_table(".split('|')", &["a", "b"], "|", "g(Ma(2));");
    let table = MaStringDecoder::extract_strings(&code).unwrap();
    assert_eq!(table.len(), 4);
    assert_eq!(table[0], "moVRS");
    assert_eq!(table[1], "a");
    assert_eq!(table[2], "b");
    assert_eq!(table[3].len(), 5001);
    assert!(MaStringDecoder::decode(&code).ends_with("g(\"b\");"));
}

#[test]
fn unquoted_separator_defaults_to_tilde() {
    let code = script_with_table(".split(s)", &["one", "two"], "~", "h(Ma(2));");
    let table = MaStringDecoder::extract_strings(&code).unwrap();
    assert_eq!(table[1], "one");
    assert_eq!(table[2], "two");
}

#[test]
fn short_table_leaves_the_script_alone() {
    let code = "var t='moVRS~a~b'.split(\"~\");f(Ma(1));";
    assert_eq!(MaStringDecoder::extract_strings(code).unwrap().len(), 0);
    assert_eq!(MaStringDecoder::decode(code), code);
}

#[test]
fn script_without_table_is_unchanged() {
    let code = "function f(){return Ma(3);}";
    assert_eq!(MaStringDecoder::extract_strings(code).unwrap().len(), 0);
    assert_eq!(MaStringDecoder::decode(code), code);
}

#[test]
fn lookup_indices_are_not_confused() {
    let entries: Vec<String> = (1..=11).map(|i| format!("e{}", i)).collect();
    let refs: Vec<&str> = entries.iter().map(|s| s.as_str()).collect();
    let code = script_with_table(".split(\"~\")", &refs, "~", "k(Ma(1),Ma(11));");
    assert!(MaStringDecoder::decode(&code).ends_with("k(\"e1\",\"e11\");"));
}
