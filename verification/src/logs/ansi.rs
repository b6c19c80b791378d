//! Removing terminal escape sequences from captured output.

use vstd::prelude::*;

verus! {

/// The byte that begins an escape sequence.
pub const ESC: u8 = 0x1b;

/// How much of `s` belongs to a control sequence whose introducer has been read: everything up to
/// its final byte.
pub open spec fn csi_len(s: Seq<u8>) -> int
    decreases s.len(),
{
    if s.len() == 0 {
        0
    } else if 0x40 <= s[0] <= 0x7e {
        1
    } else {
        1 + csi_len(s.skip(1))
    }
}

/// How much of `s` belongs to an operating-system command whose introducer has been read:
/// everything up to its terminator, a bell or an escaped backslash.
pub open spec fn osc_len(s: Seq<u8>) -> int
    decreases s.len(),
{
    if s.len() == 0 {
        0
    } else if s[0] == 7 {
        1
    } else if s[0] == ESC && s.len() > 1 && s[1] == 0x5c {
        2
    } else {
        1 + osc_len(s.skip(1))
    }
}

pub proof fn lemma_csi_len(s: Seq<u8>)
    ensures
        0 <= csi_len(s) <= s.len(),
    decreases s.len(),
{
    if s.len() > 0 {
        lemma_csi_len(s.skip(1));
    }
}

pub proof fn lemma_osc_len(s: Seq<u8>)
    ensures
        0 <= osc_len(s) <= s.len(),
    decreases s.len(),
{
    if s.len() > 0 {
        lemma_osc_len(s.skip(1));
    }
}

/// How long the escape sequence at the head of `s` is.
pub open spec fn escape_len(s: Seq<u8>) -> int {
    if s.len() < 2 {
        1
    } else if s[1] == 0x5b {
        2 + csi_len(s.skip(2))
    } else if s[1] == 0x5d {
        2 + osc_len(s.skip(2))
    } else {
        2
    }
}

pub proof fn lemma_escape_len(s: Seq<u8>)
    requires
        s.len() > 0,
    ensures
        1 <= escape_len(s) <= s.len(),
{
    if s.len() >= 2 {
        lemma_csi_len(s.skip(2));
        lemma_osc_len(s.skip(2));
    }
}

/// `s` without escape sequences.
pub open spec fn plain(s: Seq<u8>) -> Seq<u8>
    decreases s.len(),
{
    if s.len() == 0 {
        seq![]
    } else if s[0] != ESC {
        seq![s[0]] + plain(s.skip(1))
    } else {
        proof {
            lemma_escape_len(s);
        }
        plain(s.skip(escape_len(s)))
    }
}

fn skip_csi(bytes: &[u8], from: usize) -> (r: usize)
    requires
        from <= bytes@.len(),
    ensures
        r == from + csi_len(bytes@.skip(from as int)),
        r <= bytes@.len(),
{
    let mut i: usize = from;
    assert(bytes@.skip(from as int).len() == bytes@.len() - from);
    while i < bytes.len()
        invariant
            from <= i <= bytes@.len(),
            from + csi_len(bytes@.skip(from as int)) == i + csi_len(bytes@.skip(i as int)),
        decreases bytes@.len() - i,
    {
        let b: u8 = bytes[i];
        assert(bytes@.skip(i as int)[0] == b);
        assert(bytes@.skip(i as int).skip(1) =~= bytes@.skip(i + 1));
        i = i + 1;
        if 0x40 <= b && b <= 0x7e {
            return i;
        }
    }
    i
}

fn skip_osc(bytes: &[u8], from: usize) -> (r: usize)
    requires
        from <= bytes@.len(),
    ensures
        r == from + osc_len(bytes@.skip(from as int)),
        r <= bytes@.len(),
{
    let mut i: usize = from;
    while i < bytes.len()
        invariant
            from <= i <= bytes@.len(),
            from + osc_len(bytes@.skip(from as int)) == i + osc_len(bytes@.skip(i as int)),
        decreases bytes@.len() - i,
    {
        let b: u8 = bytes[i];
        let ghost rest = bytes@.skip(i as int);
        assert(rest[0] == b);
        assert(rest.skip(1) =~= bytes@.skip(i + 1));
        if b == 7 {
            return i + 1;
        }
        if b == ESC && bytes.len() - i > 1 && bytes[i + 1] == 0x5c {
            assert(rest[1] == 0x5c);
            return i + 2;
        }
        proof {
            if rest.len() > 1 {
                assert(rest[1] == bytes@[i + 1]);
            }
        }
        i = i + 1;
    }
    i
}

/// Removes escape sequences from captured output.
pub fn strip_ansi(bytes: &[u8]) -> (r: Vec<u8>)
    ensures
        r@ == plain(bytes@),
{
    let ghost s = bytes@;
    let mut out: Vec<u8> = Vec::new();
    let mut i: usize = 0;
    assert(s.skip(0) =~= s);
    assert(out@ + plain(s) =~= plain(s));
    while i < bytes.len()
        invariant
            i <= s.len(),
            s == bytes@,
            out@ + plain(s.skip(i as int)) == plain(s),
        decreases s.len() - i,
    {
        let ghost rest = s.skip(i as int);
        let ghost before = out@;
        let b: u8 = bytes[i];
        assert(rest[0] == b);
        if b != ESC {
            out.push(b);
            assert(rest.skip(1) =~= s.skip(i + 1));
            assert(before.push(b) + plain(s.skip(i + 1)) =~= before + plain(rest));
            i = i + 1;
        } else {
            proof {
                lemma_escape_len(rest);
                if rest.len() >= 2 {
                    assert(rest[1] == s[i + 1]);
                    assert(rest.skip(2) =~= s.skip(i + 2));
                }
            }
            let next: usize = if bytes.len() - i < 2 {
                i + 1
            } else if bytes[i + 1] == 0x5b {
                skip_csi(bytes, i + 2)
            } else if bytes[i + 1] == 0x5d {
                skip_osc(bytes, i + 2)
            } else {
                i + 2
            };
            assert(next == i + escape_len(rest));
            assert(rest.skip(escape_len(rest)) =~= s.skip(next as int));
            i = next;
        }
    }
    assert(s.skip(s.len() as int) =~= Seq::<u8>::empty());
    assert(out@ + plain(s.skip(s.len() as int)) =~= out@);
    out
}

/// Output without escape bytes stays as it is.
pub proof fn law_plain_output_is_untouched(s: Seq<u8>)
    requires
        forall|i: int| 0 <= i < s.len() ==> s[i] != ESC,
    ensures
        plain(s) == s,
    decreases s.len(),
{
    if s.len() > 0 {
        let rest = s.skip(1);
        assert forall|i: int| 0 <= i < rest.len() implies rest[i] != ESC by {
            assert(rest[i] == s[i + 1]);
        }
        law_plain_output_is_untouched(rest);
        assert(seq![s[0]] + rest =~= s);
    }
}

/// Stripped output holds no escape byte, so that stripping it again changes nothing.
pub proof fn law_stripping_leaves_no_escape(s: Seq<u8>)
    ensures
        forall|i: int| 0 <= i < plain(s).len() ==> plain(s)[i] != ESC,
        plain(plain(s)) == plain(s),
    decreases s.len(),
{
    lemma_no_escape(s);
    law_plain_output_is_untouched(plain(s));
}

proof fn lemma_no_escape(s: Seq<u8>)
    ensures
        forall|i: int| 0 <= i < plain(s).len() ==> plain(s)[i] != ESC,
    decreases s.len(),
{
    if s.len() > 0 {
        if s[0] != ESC {
            lemma_no_escape(s.skip(1));
            let rest = plain(s.skip(1));
            assert forall|i: int| 0 <= i < plain(s).len() implies plain(s)[i] != ESC by {
                if i > 0 {
                    assert(plain(s)[i] == rest[i - 1]);
                }
            }
        } else {
            lemma_escape_len(s);
            lemma_no_escape(s.skip(escape_len(s)));
        }
    }
}

/// A control sequence vanishes whole: its introducer, whatever precedes its final byte, and that
/// byte. So does an operating-system command up to the bell that ends it.
pub proof fn law_sequences_vanish_whole(inner: Seq<u8>, last: u8, rest: Seq<u8>)
    ensures
        0x40 <= last <= 0x7e && (forall|i: int|
            0 <= i < inner.len() ==> !(0x40 <= #[trigger] inner[i] <= 0x7e)) ==> plain(
            seq![ESC, 0x5bu8] + inner + seq![last] + rest,
        ) == plain(rest),
        last == 7 && (forall|i: int|
            0 <= i < inner.len() ==> #[trigger] inner[i] != 7 && inner[i] != ESC) ==> plain(
            seq![ESC, 0x5du8] + inner + seq![last] + rest,
        ) == plain(rest),
{
    let csi = seq![ESC, 0x5bu8] + inner + seq![last] + rest;
    let osc = seq![ESC, 0x5du8] + inner + seq![last] + rest;
    assert(csi.skip(2) =~= inner + seq![last] + rest);
    assert(osc.skip(2) =~= inner + seq![last] + rest);
    let n = inner.len() as int + 3;
    assert(csi.skip(n) =~= rest);
    assert(osc.skip(n) =~= rest);
    if 0x40 <= last <= 0x7e && (forall|i: int|
        0 <= i < inner.len() ==> !(0x40 <= #[trigger] inner[i] <= 0x7e)) {
        lemma_csi_is(inner, last, rest);
        assert(escape_len(csi) == n);
        assert(csi[0] == ESC);
    }
    if last == 7 && (forall|i: int|
        0 <= i < inner.len() ==> #[trigger] inner[i] != 7 && inner[i] != ESC) {
        lemma_osc_is(inner, last, rest);
        assert(escape_len(osc) == n);
        assert(osc[0] == ESC);
    }
}

proof fn lemma_csi_is(inner: Seq<u8>, last: u8, rest: Seq<u8>)
    requires
        0x40 <= last <= 0x7e,
        forall|i: int| 0 <= i < inner.len() ==> !(0x40 <= #[trigger] inner[i] <= 0x7e),
    ensures
        csi_len(inner + seq![last] + rest) == inner.len() + 1,
    decreases inner.len(),
{
    let s = inner + seq![last] + rest;
    if inner.len() > 0 {
        assert(s[0] == inner[0]);
        assert(s.skip(1) =~= inner.skip(1) + seq![last] + rest);
        lemma_csi_is(inner.skip(1), last, rest);
    } else {
        assert(s[0] == last);
    }
}

proof fn lemma_osc_is(inner: Seq<u8>, last: u8, rest: Seq<u8>)
    requires
        last == 7,
        forall|i: int| 0 <= i < inner.len() ==> #[trigger] inner[i] != 7 && inner[i] != ESC,
    ensures
        osc_len(inner + seq![last] + rest) == inner.len() + 1,
    decreases inner.len(),
{
    let s = inner + seq![last] + rest;
    if inner.len() > 0 {
        assert(s[0] == inner[0]);
        assert(s.skip(1) =~= inner.skip(1) + seq![last] + rest);
        lemma_osc_is(inner.skip(1), last, rest);
    } else {
        assert(s[0] == last);
    }
}

/// What is no escape sequence stays, byte by byte.
pub proof fn law_other_bytes_stay(b: u8, rest: Seq<u8>)
    requires
        b != ESC,
    ensures
        plain(seq![b] + rest) == seq![b] + plain(rest),
{
    assert((seq![b] + rest).skip(1) =~= rest);
}

} // verus!
