use noontide_emu::lsq::{
    inc_ref_count, is_space, mnemonic, parse_lsq_file, ref_count, try_parse_lsq_file, Mnemonic,
};
use noontide_emu::pdb::DebugData;

fn entries(data: &DebugData) -> Vec<(u64, &str)> {
    data.offsets.iter().map(|(offset, line)| (*offset, line.as_str())).collect()
}

#[test]
fn statements_are_laid_out_by_their_sizes() {
    let text = "start:\n\
                abssq a b\n\
                lblsq a b start\n\
                raw 1 2 3\n\
                raw_ref a start\n\
                subaddr a 5\n\
                zeroaddr start\n\
                relsq b a\n";
    let parsed = try_parse_lsq_file(text).unwrap();
    assert_eq!(
        entries(&parsed.data),
        vec![
            (0, "start:"),
            (0, "abssq a b"),
            (24, "lblsq a b start"),
            (48, "raw 1 2 3"),
            (72, "raw_ref a start"),
            (88, "subaddr a 5"),
            (184, "zeroaddr start"),
            (232, "relsq b a"),
        ]
    );
    assert_eq!(parsed.size, 256);
    assert_eq!(entries(&parse_lsq_file(text)), entries(&parsed.data));
}

#[test]
fn references_behind_a_statement_count_for_it() {
    // The label is referred to three times, twice behind the statement.
    let parsed = try_parse_lsq_file("zeroaddr x\nabssq x x\nraw_ref x\n").unwrap();
    assert_eq!(
        entries(&parsed.data),
        vec![(0, "zeroaddr x"), (72, "abssq x x"), (96, "raw_ref x")]
    );
    assert_eq!(parsed.size, 104);
}

#[test]
fn white_space_of_any_kind_separates_tokens() {
    let parsed = try_parse_lsq_file("  raw\t1 \u{a0}2\u{3000}3  \r\n\t\n\u{2003}raw_ref\u{2028}l\n").unwrap();
    assert_eq!(
        entries(&parsed.data),
        vec![(0, "  raw\t1 \u{a0}2\u{3000}3  "), (24, "\t"), (24, "\u{2003}raw_ref\u{2028}l")]
    );
    assert_eq!(parsed.size, 32);
    for c in ['\t', '\n', '\u{b}', '\u{c}', '\r', ' ', '\u{85}', '\u{a0}', '\u{1680}', '\u{2000}',
        '\u{200a}', '\u{2028}', '\u{2029}', '\u{202f}', '\u{205f}', '\u{3000}'] {
        assert!(is_space(c));
        assert!(c.is_whitespace());
    }
    for c in ['a', '0', '\u{0}', '\u{8}', '\u{e}', '\u{200b}', '\u{feff}', '_', '\u{2060}'] {
        assert!(!is_space(c));
        assert!(!c.is_whitespace());
    }
}

#[test]
fn other_lines_take_no_bytes() {
    let parsed = try_parse_lsq_file("# comment\nlabel:\nRAW 1\nrawx 1 2\n\nabssqa b c").unwrap();
    let offsets: Vec<u64> = parsed.data.offsets.iter().map(|entry| entry.0).collect();
    assert_eq!(offsets, vec![0, 0, 0, 0, 0, 0]);
    assert_eq!(parsed.size, 0);
    let empty = try_parse_lsq_file("").unwrap();
    assert!(empty.data.offsets.is_empty());
    assert_eq!(empty.size, 0);
    assert_eq!(entries(&try_parse_lsq_file("raw").unwrap().data), vec![(0, "raw")]);
    assert_eq!(try_parse_lsq_file("raw\nraw_ref").unwrap().size, 0);
}

#[test]
fn statement_that_lacks_an_argument_is_refused() {
    assert!(try_parse_lsq_file("abssq a").is_none());
    assert!(try_parse_lsq_file("abssq").is_none());
    assert!(try_parse_lsq_file("relsq a").is_none());
    assert!(try_parse_lsq_file("lblsq a b").is_none());
    assert!(try_parse_lsq_file("subaddr a").is_none());
    assert!(try_parse_lsq_file("zeroaddr").is_none());
    assert!(try_parse_lsq_file("raw 1\nraw 2\nlblsq a b\nraw 3").is_none());
    assert!(try_parse_lsq_file("abssq a b").is_some());
    assert!(try_parse_lsq_file("lblsq a b c d e").is_some());
}

#[test]
fn label_that_is_never_referred_to_takes_no_bytes() {
    let parsed = try_parse_lsq_file("zeroaddr L\nraw 1").unwrap();
    assert_eq!(entries(&parsed.data), vec![(0, "zeroaddr L"), (0, "raw 1")]);
    assert_eq!(parsed.size, 8);
    assert_eq!(
        entries(&parse_lsq_file("zeroaddr L\nraw 1")),
        vec![(0, "zeroaddr L"), (0, "raw 1")]
    );
    let parsed = try_parse_lsq_file("raw 1\nsubaddr nowhere 1\nabssq a b\nzeroaddr c\nraw 2").unwrap();
    assert_eq!(
        entries(&parsed.data),
        vec![
            (0, "raw 1"),
            (8, "subaddr nowhere 1"),
            (8, "abssq a b"),
            (32, "zeroaddr c"),
            (32, "raw 2"),
        ]
    );
    assert_eq!(parsed.size, 40);
    // The second argument of subaddr is a reference, the first is not.
    assert_eq!(try_parse_lsq_file("subaddr a a").unwrap().size, 24);
    assert_eq!(try_parse_lsq_file("subaddr a b").unwrap().size, 0);
    assert_eq!(try_parse_lsq_file("zeroaddr a\nzeroaddr a").unwrap().size, 0);
}

#[test]
fn mnemonics_are_told_apart() {
    let kind = |text: &str| mnemonic(&text.to_string());
    assert_eq!(kind("abssq"), Mnemonic::Abssq);
    assert_eq!(kind("relsq"), Mnemonic::Relsq);
    assert_eq!(kind("lblsq"), Mnemonic::Lblsq);
    assert_eq!(kind("subaddr"), Mnemonic::Subaddr);
    assert_eq!(kind("zeroaddr"), Mnemonic::Zeroaddr);
    assert_eq!(kind("raw"), Mnemonic::Raw);
    assert_eq!(kind("raw_ref"), Mnemonic::RawRef);
    assert_eq!(kind("Abssq"), Mnemonic::Other);
    assert_eq!(kind(""), Mnemonic::Other);
    assert_eq!(kind("raw_"), Mnemonic::Other);
}

#[test]
fn reference_counts() {
    let mut counts: Vec<(String, u64)> = Vec::new();
    assert_eq!(ref_count(&counts, &"a".to_string()), 0);
    inc_ref_count(&mut counts, "a");
    inc_ref_count(&mut counts, "b");
    inc_ref_count(&mut counts, "a");
    inc_ref_count(&mut counts, "a");
    assert_eq!(ref_count(&counts, &"a".to_string()), 3);
    assert_eq!(ref_count(&counts, &"b".to_string()), 1);
    assert_eq!(ref_count(&counts, &"c".to_string()), 0);
    assert_eq!(counts, vec![("a".to_string(), 3), ("b".to_string(), 1)]);
}

#[test]
fn tokens_are_split_as_the_standard_library_splits_them() {
    // Every token of a raw statement takes eight bytes but the first.
    for line in ["raw", "raw 1", " raw  1  2 ", "raw\t1\u{a0}2\u{2003}3", "raw \u{200b} x", "  ", ""] {
        let tokens = line.split_whitespace().count() as u64;
        let size = try_parse_lsq_file(line).unwrap().size;
        assert_eq!(size, if tokens > 0 { 8 * (tokens - 1) } else { 0 });
    }
}
