//! Analysis helpers for an obfuscated JavaScript challenge runtime: operator
//! tables, string-table recovery, switch-based VM opcode classification,
//! XTEA payload detection and response-body handling.

pub mod chars;
pub mod cli;
pub mod deobfuscator;
pub mod http;
pub mod js_ast;
pub mod js_parse;
pub mod ma_lookup;
pub mod ma_strings;
pub mod magic_bits;
pub mod network;
pub mod parallel_arenas;
pub mod regex_search;
pub mod text;
pub mod vm_candidates;
pub mod vm_opcode_mapper;
pub mod xtea_decryptor;
