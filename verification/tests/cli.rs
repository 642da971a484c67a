use cf::cli::{output_path, parse_args, should_export};

fn args(list: &[&str]) -> Vec<String> {
    list.iter().map(|s| s.to_string()).collect()
}

#[test]
fn file_and_flags_are_read() {
    let o = parse_args(&args(&["mapper", "function.js", "--extract", "--no-deobfuscate"]));
    assert!(!o.is_fetch);
    assert!(o.do_extract);
    assert!(o.skip_deobfuscate);
    assert_eq!(o.url_or_path.as_deref(), Some("function.js"));
    assert_eq!(o.output_arg, None);
}

#[test]
fn first_positional_is_input_second_is_output() {
    let o = parse_args(&args(&["vm-opcode-mapper", "in.js", "out.json"]));
    assert_eq!(o.url_or_path.as_deref(), Some("in.js"));
    assert_eq!(output_path(&o), "out.json");
    let o = parse_args(&args(&["vm-opcode-mapper", "in.js", "--extract", "out.json", "extra"]));
    assert_eq!(o.url_or_path.as_deref(), Some("in.js"));
    assert_eq!(output_path(&o), "out.json");
}

#[test]
fn fetch_takes_the_following_url() {
    let o = parse_args(&args(&["mapper", "--fetch", "https://example.test/a.js", "out.json"]));
    assert!(o.is_fetch);
    assert_eq!(o.url_or_path.as_deref(), Some("https://example.test/a.js"));
    assert_eq!(output_path(&o), "out.json");
    let o = parse_args(&args(&["mapper", "--fetch", "--extract"]));
    assert!(o.is_fetch && o.do_extract);
    assert_eq!(o.url_or_path, None);
}

#[test]
fn no_input_is_none() {
    let o = parse_args(&args(&["mapper"]));
    assert!(!o.is_fetch && !o.skip_deobfuscate && !o.do_extract);
    assert_eq!(o.url_or_path, None);
}

#[test]
fn output_defaults_when_absent_or_a_flag() {
    let o = parse_args(&args(&["vm-opcode-mapper", "function.js"]));
    assert_eq!(output_path(&o), "opcode_mapping.json");
    let o = parse_args(&args(&["vm-opcode-mapper", "in.js", "--verbose"]));
    assert_eq!(output_path(&o), "opcode_mapping.json");
}

#[test]
fn run_outputs_and_input_are_not_overwritten() {
    assert!(should_export("opcode_mapping.json", "function.js"));
    assert!(!should_export("function.js", "function.js"));
    assert!(!should_export("function_clean.js", "in.js"));
    assert!(!should_export("vm_extracted.js", "in.js"));
}
