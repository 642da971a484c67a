//! Command-line handling of the opcode mapper: reading the options and
//! choosing where the mapping is written.
//!
//! The usage is `vm-opcode-mapper <js_file> [--no-deobfuscate] [--extract]
//! [output_json]`, or `--fetch <url>` in place of the file: the first
//! argument that is not one of the three flags names the input, a second one
//! the output.
use vstd::prelude::*;
use crate::text::{str_equal, str_starts_with};

verus! {

/// The options of one run.
pub struct CliOptions {
    /// Download the script (`--fetch`) instead of reading a file.
    pub is_fetch: bool,
    /// Keep the script as it is (`--no-deobfuscate`).
    pub skip_deobfuscate: bool,
    /// Cut the VM switch out of the raw script first (`--extract`).
    pub do_extract: bool,
    /// The file or URL to read: the first argument that is not a flag.
    pub url_or_path: Option<String>,
    /// The second argument that is not a flag, where there is one.
    pub output_arg: Option<String>,
}

/// Text that looks like an option: it starts with `--`.
pub open spec fn is_flag(s: Seq<char>) -> bool {
    s.len() >= 2 && s.subrange(0, 2) == "--"@
}

/// One of the three options the mapper knows.
pub open spec fn is_known_flag(s: Seq<char>) -> bool {
    s == "--fetch"@ || s == "--no-deobfuscate"@ || s == "--extract"@
}

/// (fetch, skip, extract, first, second) after reading the arguments from
/// `pos` on: each known flag sets its option, and any other argument is a
/// positional one, the first of which names the input and the second the
/// output; further ones are ignored.
pub open spec fn parse_from(
    args: Seq<Seq<char>>,
    pos: int,
    st: (bool, bool, bool, Option<Seq<char>>, Option<Seq<char>>),
) -> (bool, bool, bool, Option<Seq<char>>, Option<Seq<char>>)
    decreases args.len() - pos,
{
    if pos < 1 || pos >= args.len() {
        st
    } else if args[pos] == "--fetch"@ {
        parse_from(args, pos + 1, (true, st.1, st.2, st.3, st.4))
    } else if args[pos] == "--no-deobfuscate"@ {
        parse_from(args, pos + 1, (st.0, true, st.2, st.3, st.4))
    } else if args[pos] == "--extract"@ {
        parse_from(args, pos + 1, (st.0, st.1, true, st.3, st.4))
    } else if st.3 is None {
        parse_from(args, pos + 1, (st.0, st.1, st.2, Some(args[pos]), st.4))
    } else if st.4 is None {
        parse_from(args, pos + 1, (st.0, st.1, st.2, st.3, Some(args[pos])))
    } else {
        parse_from(args, pos + 1, st)
    }
}

/// The options that the arguments (the program name first) select.
pub open spec fn parsed_options(args: Seq<Seq<char>>) -> (
    bool,
    bool,
    bool,
    Option<Seq<char>>,
    Option<Seq<char>>,
) {
    parse_from(args, 1, (false, false, false, None, None))
}

pub open spec fn opt_view(o: Option<String>) -> Option<Seq<char>> {
    match o {
        Some(s) => Some(s@),
        None => None,
    }
}

pub open spec fn options_view(o: CliOptions) -> (
    bool,
    bool,
    bool,
    Option<Seq<char>>,
    Option<Seq<char>>,
) {
    (o.is_fetch, o.skip_deobfuscate, o.do_extract, opt_view(o.url_or_path), opt_view(o.output_arg))
}

/// Reads the options from the arguments (see `parsed_options`).
pub fn parse_args(args: &Vec<String>) -> (r: CliOptions)
    ensures
        options_view(r) == parsed_options(args@.map_values(|s: String| s@)),
{
    let ghost a = args@.map_values(|s: String| s@);
    let mut pos: usize = 1;
    let mut is_fetch = false;
    let mut skip_deobfuscate = false;
    let mut do_extract = false;
    let mut url_or_path: Option<String> = None;
    let mut output_arg: Option<String> = None;
    while pos < args.len()
        invariant
            a == args@.map_values(|s: String| s@),
            1 <= pos,
            parsed_options(a) == parse_from(
                a,
                pos as int,
                (is_fetch, skip_deobfuscate, do_extract, opt_view(url_or_path), opt_view(output_arg)),
            ),
        decreases args@.len() - pos,
    {
        proof {
            reveal_strlit("--fetch");
            reveal_strlit("--no-deobfuscate");
            reveal_strlit("--extract");
            assert(a[pos as int] == args@[pos as int]@);
        }
        let arg = args[pos].as_str();
        if str_equal(arg, "--fetch") {
            is_fetch = true;
        } else if str_equal(arg, "--no-deobfuscate") {
            skip_deobfuscate = true;
        } else if str_equal(arg, "--extract") {
            do_extract = true;
        } else if url_or_path.is_none() {
            url_or_path = Some(args[pos].clone());
        } else if output_arg.is_none() {
            output_arg = Some(args[pos].clone());
        }
        pos = pos + 1;
    }
    CliOptions { is_fetch, skip_deobfuscate, do_extract, url_or_path, output_arg }
}

/// The file the mapping is written to: the second positional argument
/// unless it looks like a flag, else `opcode_mapping.json`.
pub open spec fn output_path_of(output_arg: Option<Seq<char>>) -> Seq<char> {
    match output_arg {
        Some(p) => if !is_flag(p) {
            p
        } else {
            "opcode_mapping.json"@
        },
        None => "opcode_mapping.json"@,
    }
}

/// Chooses the output file (see `output_path_of`).
pub fn output_path(options: &CliOptions) -> (r: String)
    ensures
        r@ == output_path_of(opt_view(options.output_arg)),
{
    proof {
        reveal_strlit("--");
    }
    match &options.output_arg {
        Some(p) => {
            if !str_starts_with(p.as_str(), "--") {
                p.clone()
            } else {
                String::from_str("opcode_mapping.json")
            }
        },
        None => String::from_str("opcode_mapping.json"),
    }
}

/// The mapping is written neither over the input nor over the files the run
/// itself produces.
pub open spec fn exports_to(path: Seq<char>, input: Seq<char>) -> bool {
    path != input && path != "function_clean.js"@ && path != "vm_extracted.js"@
}

/// Whether the mapping is to be written to `path` when the script was read
/// from `input` (see `exports_to`).
pub fn should_export(path: &str, input: &str) -> (r: bool)
    ensures
        r == exports_to(path@, input@),
{
    !str_equal(path, input) && !str_equal(path, "function_clean.js") && !str_equal(
        path,
        "vm_extracted.js",
    )
}

/// The usage line's reading: the first positional argument is the input,
/// a second one that is not a flag the output, the output otherwise
/// `opcode_mapping.json`; and a mapping that is exported never overwrites the
/// input.
pub proof fn lemma_input_first_output_second(input: Seq<char>, output: Seq<char>)
    requires
        !is_known_flag(input),
        !is_known_flag(output),
        !is_flag(output),
    ensures
        ({
            let args = seq!["vm-opcode-mapper"@, input, output];
            let o = parsed_options(args);
            &&& o.3 == Some(input)
            &&& o.4 == Some(output)
            &&& output_path_of(o.4) == output
        }),
        ({
            let o = parsed_options(seq!["vm-opcode-mapper"@, input]);
            &&& o.3 == Some(input)
            &&& o.4 is None
            &&& output_path_of(o.4) == "opcode_mapping.json"@
        }),
        forall|p: Seq<char>| #[trigger] exports_to(p, input) ==> p != input,
{
    let args = seq!["vm-opcode-mapper"@, input, output];
    assert(args[1] == input);
    assert(args[2] == output);
    let s0 = (false, false, false, None::<Seq<char>>, None::<Seq<char>>);
    let s1 = (false, false, false, Some(input), None::<Seq<char>>);
    let s2 = (false, false, false, Some(input), Some(output));
    assert(parse_from(args, 3, s2) == s2);
    assert(parse_from(args, 2, s1) == parse_from(args, 3, s2));
    assert(parse_from(args, 1, s0) == parse_from(args, 2, s1));
    let one = seq!["vm-opcode-mapper"@, input];
    assert(one[1] == input);
    assert(parse_from(one, 2, s1) == s1);
    assert(parse_from(one, 1, s0) == parse_from(one, 2, s1));
}

} // verus!
