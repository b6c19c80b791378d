//! What colour adds to a report: style sequences, and nothing else.

use vstd::prelude::*;
use vstd::utf8::{
    encode_scalar, encode_utf8, has_width_1_encoding, has_width_2_encoding, has_width_3_encoding,
    has_width_4_encoding, is_ascii_chars, is_ascii_chars_encode_utf8, last_continuation_byte,
    leading_byte_width_1, leading_byte_width_2, leading_byte_width_3, leading_byte_width_4,
    second_last_continuation_byte, third_last_continuation_byte,
};

use crate::diag::{
    block_text, evidence_text, gutter_line, gutter_lines, header_text, help_line, help_lines,
    help_text, label_width, law_plain_render_has_no_escape, lemma_code_digits, lemma_plain_notes,
    lemma_plain_origin, notes_text, origin_text, padded, place_text, plain, plain_block, plain_help,
    plain_parts, rendered, style, DiagnosticView, EvidenceView, HelpView, OriginView, BOLD, CYAN,
    DIM, GREEN, RED, RESET, UNDERLINE, YELLOW,
};
use crate::logs::ansi::{csi_len, escape_len, plain as stripped, ESC};

verus! {

// ---------------------------------------------------------------------------
// Texts and what is left of them
// ---------------------------------------------------------------------------

proof fn lemma_encode_add(a: Seq<char>, b: Seq<char>)
    ensures
        encode_utf8(a + b) == encode_utf8(a) + encode_utf8(b),
    decreases a.len(),
{
    if a.len() == 0 {
        assert(a + b =~= b);
        assert(encode_utf8(a) + encode_utf8(b) =~= encode_utf8(b));
    } else {
        assert((a + b).drop_first() =~= a.drop_first() + b);
        lemma_encode_add(a.drop_first(), b);
        assert(encode_utf8(a + b) =~= encode_utf8(a) + encode_utf8(b));
    }
}

proof fn lemma_scalar_bytes(c: u32)
    by (bit_vector)
    ensures
        has_width_1_encoding(c) && c != 0x1b ==> leading_byte_width_1(c) != 0x1b,
        has_width_2_encoding(c) ==> leading_byte_width_2(c) != 0x1b,
        has_width_3_encoding(c) ==> leading_byte_width_3(c) != 0x1b,
        has_width_4_encoding(c) ==> leading_byte_width_4(c) != 0x1b,
        last_continuation_byte(c) != 0x1b,
        second_last_continuation_byte(c) != 0x1b,
        third_last_continuation_byte(c) != 0x1b,
{
}

/// Whether bytes hold no escape byte.
spec fn unescaped(s: Seq<u8>) -> bool {
    forall|i: int| 0 <= i < s.len() ==> #[trigger] s[i] != ESC
}

proof fn lemma_plain_bytes(p: Seq<char>)
    requires
        plain(p),
    ensures
        unescaped(encode_utf8(p)),
    decreases p.len(),
{
    if p.len() > 0 {
        let c = p[0] as u32;
        let rest = p.drop_first();
        assert(p[0] != '\x1b');
        assert(plain(rest)) by {
            assert forall|i: int| 0 <= i < rest.len() implies rest[i] != '\x1b' by {
                assert(rest[i] == p[i + 1]);
            }
        }
        lemma_plain_bytes(rest);
        vstd::utf8::char_is_scalar(p[0]);
        lemma_scalar_bytes(c);
        let head = encode_scalar(c);
        assert(c != 0x1b) by {
            vstd::utf8::char_u32_cast(p[0], c);
            vstd::utf8::char_u32_cast('\x1b', 0x1b);
        }
        assert(unescaped(head));
        let tail = encode_utf8(rest);
        assert forall|i: int| 0 <= i < encode_utf8(p).len() implies #[trigger] encode_utf8(p)[i]
            != ESC by {
            if i < head.len() {
                assert(encode_utf8(p)[i] == head[i]);
            } else {
                assert(encode_utf8(p)[i] == tail[i - head.len()]);
            }
        }
    }
}

/// Whether stripping leaves `bare` of `text`, whatever comes after it.
spec fn leaves(text: Seq<char>, bare: Seq<char>) -> bool {
    forall|t: Seq<u8>| #[trigger]
        stripped(encode_utf8(text) + t) == encode_utf8(bare) + stripped(t)
}

proof fn lemma_leaves_nothing()
    ensures
        leaves(seq![], seq![]),
{
    let none = Seq::<char>::empty();
    assert forall|t: Seq<u8>| #[trigger] stripped(encode_utf8(none) + t) == encode_utf8(none)
        + stripped(t) by {
        assert(encode_utf8(none) + t =~= t);
        assert(encode_utf8(none) + stripped(t) =~= stripped(t));
    }
}

proof fn lemma_leaves_add(a: Seq<char>, x: Seq<char>, b: Seq<char>, y: Seq<char>)
    requires
        leaves(a, x),
        leaves(b, y),
    ensures
        leaves(a + b, x + y),
{
    lemma_encode_add(a, b);
    lemma_encode_add(x, y);
    assert forall|t: Seq<u8>| #[trigger] stripped(encode_utf8(a + b) + t) == encode_utf8(x + y)
        + stripped(t) by {
        assert(encode_utf8(a + b) + t =~= encode_utf8(a) + (encode_utf8(b) + t));
        assert(stripped(encode_utf8(b) + t) == encode_utf8(y) + stripped(t));
        assert(encode_utf8(x + y) + stripped(t) =~= encode_utf8(x) + (encode_utf8(y) + stripped(
            t,
        )));
    }
}

proof fn lemma_unescaped_stays(s: Seq<u8>, t: Seq<u8>)
    requires
        unescaped(s),
    ensures
        stripped(s + t) == s + stripped(t),
    decreases s.len(),
{
    if s.len() == 0 {
        assert(s + t =~= t);
        assert(s + stripped(t) =~= stripped(t));
    } else {
        let rest = s.skip(1);
        assert(unescaped(rest)) by {
            assert forall|i: int| 0 <= i < rest.len() implies #[trigger] rest[i] != ESC by {
                assert(rest[i] == s[i + 1]);
            }
        }
        lemma_unescaped_stays(rest, t);
        assert((s + t).skip(1) =~= rest + t);
        assert((s + t)[0] == s[0]);
        assert(seq![s[0]] + (rest + stripped(t)) =~= s + stripped(t));
    }
}

proof fn lemma_leaves_plain(p: Seq<char>)
    requires
        plain(p),
    ensures
        leaves(p, p),
{
    lemma_plain_bytes(p);
    assert forall|t: Seq<u8>| #[trigger] stripped(encode_utf8(p) + t) == encode_utf8(p) + stripped(
        t,
    ) by {
        lemma_unescaped_stays(encode_utf8(p), t);
    }
}

/// Whether a text is a style sequence: digits and semicolons between its introducer and its final
/// letter.
spec fn is_style(s: Seq<char>) -> bool {
    &&& s.len() >= 3
    &&& s[0] == '\x1b'
    &&& s[1] == '['
    &&& s.last() == 'm'
    &&& forall|i: int| 2 <= i < s.len() - 1 ==> '0' <= #[trigger] s[i] <= ';'
}

proof fn lemma_csi_end(s: Seq<u8>, n: int)
    requires
        0 <= n < s.len(),
        0x40 <= s[n] <= 0x7e,
        forall|i: int| 0 <= i < n ==> #[trigger] s[i] < 0x40,
    ensures
        csi_len(s) == n + 1,
    decreases n,
{
    if n > 0 {
        let rest = s.skip(1);
        assert(s[0] < 0x40);
        assert forall|i: int| 0 <= i < n - 1 implies #[trigger] rest[i] < 0x40 by {
            assert(rest[i] == s[i + 1]);
        }
        lemma_csi_end(rest, n - 1);
    }
}

proof fn lemma_leaves_style(code: Seq<char>)
    requires
        is_style(code),
    ensures
        leaves(code, seq![]),
{
    assert(is_ascii_chars(code)) by {
        assert forall|i: int| 0 <= i < code.len() implies '\0' <= #[trigger] code[i] <= '\u{7f}' by {
            if i >= 2 && i < code.len() - 1 {
                assert('0' <= code[i] <= ';');
            }
        }
    }
    is_ascii_chars_encode_utf8(code);
    let bytes = encode_utf8(code);
    let n = code.len() as int;
    let none = Seq::<char>::empty();
    assert forall|t: Seq<u8>| #[trigger] stripped(bytes + t) == encode_utf8(none) + stripped(t) by {
        let s = bytes + t;
        assert(s[0] == bytes[0] && bytes[0] == code[0] as u8);
        assert(s[1] == bytes[1] && bytes[1] == code[1] as u8);
        let rest = s.skip(2);
        assert(rest[n - 3] == bytes[n - 1] && bytes[n - 1] == code[n - 1] as u8);
        assert forall|i: int| 0 <= i < n - 3 implies #[trigger] rest[i] < 0x40 by {
            assert(rest[i] == bytes[i + 2] && bytes[i + 2] == code[i + 2] as u8);
            assert('0' <= code[i + 2] <= ';');
        }
        lemma_csi_end(rest, n - 3);
        assert(escape_len(s) == n);
        assert(s.skip(n) =~= t);
        assert(encode_utf8(none) + stripped(t) =~= stripped(t));
    }
}

proof fn lemma_styles()
    ensures
        is_style(RED@),
        is_style(YELLOW@),
        is_style(CYAN@),
        is_style(GREEN@),
        is_style(BOLD@),
        is_style(DIM@),
        is_style(UNDERLINE@),
        is_style(RESET@),
{
    reveal_strlit("\x1b[1;31m");
    reveal_strlit("\x1b[1;33m");
    reveal_strlit("\x1b[36m");
    reveal_strlit("\x1b[32m");
    reveal_strlit("\x1b[1m");
    reveal_strlit("\x1b[2m");
    reveal_strlit("\x1b[4;34m");
    reveal_strlit("\x1b[0m");
}

proof fn lemma_then_plain(a: Seq<char>, x: Seq<char>, p: Seq<char>)
    requires
        leaves(a, x),
        plain(p),
    ensures
        leaves(a + p, x + p),
{
    lemma_leaves_plain(p);
    lemma_leaves_add(a, x, p, p);
}

proof fn lemma_then_style(a: Seq<char>, x: Seq<char>, code: Seq<char>)
    requires
        leaves(a, x),
        is_style(code),
    ensures
        leaves(a + style(true, code), x + style(false, code)),
{
    lemma_leaves_style(code);
    lemma_leaves_add(a, x, code, seq![]);
}

// ---------------------------------------------------------------------------
// The parts of a report
// ---------------------------------------------------------------------------

proof fn lemma_words()
    ensures
        plain("error"@),
        plain("warning"@),
        plain("note"@),
        plain("["@),
        plain("]"@),
        plain(": "@),
        plain("\n"@),
        plain(" "@),
        plain("  "@),
        plain("    "@),
        plain("-->"@),
        plain(":"@),
        plain("\u{2502}"@),
        plain("docs"@),
        plain("help:"@),
{
    reveal_strlit("error");
    reveal_strlit("warning");
    reveal_strlit("note");
    reveal_strlit("[");
    reveal_strlit("]");
    reveal_strlit(": ");
    reveal_strlit("\n");
    reveal_strlit(" ");
    reveal_strlit("  ");
    reveal_strlit("    ");
    reveal_strlit("-->");
    reveal_strlit(":");
    reveal_strlit("\u{2502}");
    reveal_strlit("docs");
    reveal_strlit("help:");
}

proof fn lemma_header(d: DiagnosticView)
    requires
        plain(d.title),
    ensures
        leaves(header_text(d, true), header_text(d, false)),
{
    lemma_words();
    lemma_styles();
    lemma_code_digits(d.code);
    assert(plain(d.code.spelled()));
    let paint = d.severity.paint();
    assert(is_style(paint));
    assert(plain(d.severity.word()));
    lemma_leaves_style(paint);
    let a = style(true, paint);
    let x = style(false, paint);
    lemma_then_plain(a, x, d.severity.word());
    let a = a + d.severity.word();
    let x = x + d.severity.word();
    lemma_then_plain(a, x, "["@);
    let a = a + "["@;
    let x = x + "["@;
    lemma_then_plain(a, x, d.code.spelled());
    let a = a + d.code.spelled();
    let x = x + d.code.spelled();
    lemma_then_plain(a, x, "]"@);
    let a = a + "]"@;
    let x = x + "]"@;
    lemma_then_style(a, x, RESET@);
    let a = a + style(true, RESET@);
    let x = x + style(false, RESET@);
    lemma_then_style(a, x, BOLD@);
    let a = a + style(true, BOLD@);
    let x = x + style(false, BOLD@);
    lemma_then_plain(a, x, ": "@);
    let a = a + ": "@;
    let x = x + ": "@;
    lemma_then_plain(a, x, d.title);
    let a = a + d.title;
    let x = x + d.title;
    lemma_then_style(a, x, RESET@);
    let a = a + style(true, RESET@);
    let x = x + style(false, RESET@);
    lemma_then_plain(a, x, "\n"@);
}

proof fn lemma_origin(o: OriginView)
    requires
        plain(o.file),
        o.key matches Some(k) ==> plain(k),
    ensures
        leaves(origin_text(Some(o), true), origin_text(Some(o), false)),
{
    lemma_words();
    lemma_styles();
    lemma_plain_origin(o);
    lemma_leaves_plain("  "@);
    let a = "  "@;
    let x = "  "@;
    lemma_then_style(a, x, CYAN@);
    let a = a + style(true, CYAN@);
    let x = x + style(false, CYAN@);
    lemma_then_plain(a, x, "-->"@);
    let a = a + "-->"@;
    let x = x + "-->"@;
    lemma_then_style(a, x, RESET@);
    let a = a + style(true, RESET@);
    let x = x + style(false, RESET@);
    lemma_then_plain(a, x, " "@);
    let a = a + " "@;
    let x = x + " "@;
    lemma_then_plain(a, x, place_text(o));
    let a = a + place_text(o);
    let x = x + place_text(o);
    lemma_then_plain(a, x, "\n"@);
}

proof fn lemma_gutter(line: Seq<char>)
    requires
        plain(line),
    ensures
        leaves(gutter_line(line, true), gutter_line(line, false)),
{
    lemma_words();
    lemma_styles();
    lemma_leaves_plain("  "@);
    let a = "  "@;
    let x = "  "@;
    lemma_then_style(a, x, DIM@);
    let a = a + style(true, DIM@);
    let x = x + style(false, DIM@);
    lemma_then_plain(a, x, "\u{2502}"@);
    let a = a + "\u{2502}"@;
    let x = x + "\u{2502}"@;
    lemma_then_style(a, x, RESET@);
    let a = a + style(true, RESET@);
    let x = x + style(false, RESET@);
    lemma_then_plain(a, x, " "@);
    let a = a + " "@;
    let x = x + " "@;
    lemma_then_plain(a, x, line);
    let a = a + line;
    let x = x + line;
    lemma_then_plain(a, x, "\n"@);
}

proof fn lemma_gutters(lines: Seq<Seq<char>>)
    requires
        forall|i: int| 0 <= i < lines.len() ==> plain(#[trigger] lines[i]),
    ensures
        leaves(gutter_lines(lines, true), gutter_lines(lines, false)),
    decreases lines.len(),
{
    if lines.len() == 0 {
        lemma_leaves_nothing();
    } else {
        let front = lines.drop_last();
        assert(plain(lines[lines.len() - 1]));
        lemma_gutters(front);
        lemma_gutter(lines.last());
        lemma_leaves_add(
            gutter_lines(front, true),
            gutter_lines(front, false),
            gutter_line(lines.last(), true),
            gutter_line(lines.last(), false),
        );
    }
}

/// A heading on a line of its own.
spec fn heading(code: Seq<char>, label: Seq<char>, end: Seq<char>, color: bool) -> Seq<char> {
    "  "@ + style(color, code) + label + end + style(color, RESET@) + "\n"@
}

proof fn lemma_heading(code: Seq<char>, label: Seq<char>, end: Seq<char>)
    requires
        is_style(code),
        plain(label),
        plain(end),
    ensures
        leaves(heading(code, label, end, true), heading(code, label, end, false)),
{
    lemma_words();
    lemma_styles();
    lemma_leaves_plain("  "@);
    let a = "  "@;
    let x = "  "@;
    lemma_then_style(a, x, code);
    let a = a + style(true, code);
    let x = x + style(false, code);
    lemma_then_plain(a, x, label);
    let a = a + label;
    let x = x + label;
    lemma_then_plain(a, x, end);
    let a = a + end;
    let x = x + end;
    lemma_then_style(a, x, RESET@);
    let a = a + style(true, RESET@);
    let x = x + style(false, RESET@);
    lemma_then_plain(a, x, "\n"@);
}

proof fn lemma_block(e: EvidenceView)
    requires
        plain_block(e),
    ensures
        leaves(block_text(e, true), block_text(e, false)),
{
    lemma_words();
    lemma_styles();
    lemma_leaves_plain("\n"@);
    lemma_heading(DIM@, e.label, ":"@);
    let a = heading(DIM@, e.label, ":"@, true);
    let x = heading(DIM@, e.label, ":"@, false);
    lemma_leaves_add("\n"@, "\n"@, a, x);
    lemma_gutters(e.lines);
    lemma_leaves_add(
        "\n"@ + a,
        "\n"@ + x,
        gutter_lines(e.lines, true),
        gutter_lines(e.lines, false),
    );
}

proof fn lemma_evidence(blocks: Seq<EvidenceView>)
    requires
        forall|i: int| 0 <= i < blocks.len() ==> plain_block(#[trigger] blocks[i]),
    ensures
        leaves(evidence_text(blocks, true), evidence_text(blocks, false)),
    decreases blocks.len(),
{
    if blocks.len() == 0 {
        lemma_leaves_nothing();
    } else {
        let front = blocks.drop_last();
        assert(plain_block(blocks[blocks.len() - 1]));
        lemma_evidence(front);
        lemma_block(blocks.last());
        lemma_leaves_add(
            evidence_text(front, true),
            evidence_text(front, false),
            block_text(blocks.last(), true),
            block_text(blocks.last(), false),
        );
    }
}

/// A help line of any label, style and content.
spec fn helping(label: Seq<char>, width: nat, code: Seq<char>, what: Seq<char>, color: bool) -> Seq<
    char,
> {
    "    "@ + padded(label, width) + "  "@ + style(color, code) + what + style(color, RESET@) + "\n"@
}

proof fn lemma_helping(label: Seq<char>, width: nat, code: Seq<char>, what: Seq<char>)
    requires
        is_style(code),
        plain(label),
        plain(what),
    ensures
        leaves(helping(label, width, code, what, true), helping(label, width, code, what, false)),
{
    lemma_words();
    lemma_styles();
    assert(plain(padded(label, width)));
    lemma_leaves_plain("    "@);
    let a = "    "@;
    let x = "    "@;
    lemma_then_plain(a, x, padded(label, width));
    let a = a + padded(label, width);
    let x = x + padded(label, width);
    lemma_then_plain(a, x, "  "@);
    let a = a + "  "@;
    let x = x + "  "@;
    lemma_then_style(a, x, code);
    let a = a + style(true, code);
    let x = x + style(false, code);
    lemma_then_plain(a, x, what);
    let a = a + what;
    let x = x + what;
    lemma_then_style(a, x, RESET@);
    let a = a + style(true, RESET@);
    let x = x + style(false, RESET@);
    lemma_then_plain(a, x, "\n"@);
}

proof fn lemma_help_line(h: HelpView, width: nat)
    requires
        plain_help(h),
    ensures
        leaves(help_line(h, width, true), help_line(h, width, false)),
{
    lemma_words();
    lemma_styles();
    match h {
        HelpView::Command { label, cmd } => {
            lemma_helping(label, width, BOLD@, cmd);
        },
        HelpView::Link { url } => {
            lemma_helping("docs"@, width, UNDERLINE@, url);
        },
    }
}

proof fn lemma_help_lines(help: Seq<HelpView>, width: nat)
    requires
        forall|i: int| 0 <= i < help.len() ==> plain_help(#[trigger] help[i]),
    ensures
        leaves(help_lines(help, width, true), help_lines(help, width, false)),
    decreases help.len(),
{
    if help.len() == 0 {
        lemma_leaves_nothing();
    } else {
        let front = help.drop_last();
        assert(plain_help(help[help.len() - 1]));
        lemma_help_lines(front, width);
        lemma_help_line(help.last(), width);
        lemma_leaves_add(
            help_lines(front, width, true),
            help_lines(front, width, false),
            help_line(help.last(), width, true),
            help_line(help.last(), width, false),
        );
    }
}

proof fn lemma_help(help: Seq<HelpView>)
    requires
        forall|i: int| 0 <= i < help.len() ==> plain_help(#[trigger] help[i]),
    ensures
        leaves(help_text(help, true), help_text(help, false)),
{
    if help.len() == 0 {
        lemma_leaves_nothing();
    } else {
        lemma_words();
        lemma_styles();
        lemma_leaves_plain("\n"@);
        lemma_heading(GREEN@, "help:"@, seq![]);
        let a = heading(GREEN@, "help:"@, seq![], true);
        let x = heading(GREEN@, "help:"@, seq![], false);
        assert(a =~= "  "@ + style(true, GREEN@) + "help:"@ + style(true, RESET@) + "\n"@);
        assert(x =~= "  "@ + style(false, GREEN@) + "help:"@ + style(false, RESET@) + "\n"@);
        lemma_leaves_add("\n"@, "\n"@, a, x);
        let width = label_width(help);
        lemma_help_lines(help, width);
        lemma_leaves_add(
            "\n"@ + a,
            "\n"@ + x,
            help_lines(help, width, true),
            help_lines(help, width, false),
        );
    }
}

/// Colour adds nothing but style sequences: a coloured report with its escape sequences stripped is
/// the plain report, which holds no escape character, unless the diagnostic itself holds one. The
/// two are never the same text.
pub proof fn law_stripped_color_is_plain(d: DiagnosticView)
    requires
        plain_parts(d),
    ensures
        stripped(encode_utf8(rendered(d, true))) == encode_utf8(rendered(d, false)),
        plain(rendered(d, false)),
        rendered(d, true) != rendered(d, false),
{
    law_plain_render_has_no_escape(d);
    lemma_header(d);
    let a = header_text(d, true);
    let x = header_text(d, false);
    match d.origin {
        Some(o) => {
            lemma_origin(o);
        },
        None => {
            lemma_leaves_nothing();
        },
    }
    lemma_leaves_add(a, x, origin_text(d.origin, true), origin_text(d.origin, false));
    let a = a + origin_text(d.origin, true);
    let x = x + origin_text(d.origin, false);
    assert(plain(notes_text(d.notes))) by {
        lemma_words();
        lemma_plain_notes(d.notes);
    }
    lemma_then_plain(a, x, notes_text(d.notes));
    let a = a + notes_text(d.notes);
    let x = x + notes_text(d.notes);
    lemma_evidence(d.evidence);
    lemma_leaves_add(a, x, evidence_text(d.evidence, true), evidence_text(d.evidence, false));
    let a = a + evidence_text(d.evidence, true);
    let x = x + evidence_text(d.evidence, false);
    lemma_help(d.help);
    lemma_leaves_add(a, x, help_text(d.help, true), help_text(d.help, false));
    let text = rendered(d, true);
    let bare = rendered(d, false);
    let none = Seq::<u8>::empty();
    assert(stripped(encode_utf8(text) + none) == encode_utf8(bare) + stripped(none));
    assert(encode_utf8(text) + none =~= encode_utf8(text));
    assert(encode_utf8(bare) + stripped(none) =~= encode_utf8(bare));
    lemma_styles();
    assert(is_style(d.severity.paint()));
    assert(text[0] == d.severity.paint()[0]);
    assert(text[0] == '\x1b');
}

} // verus!
