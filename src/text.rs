//! Byte-level reading of the sample format: lines, comma-separated fields and
//! unsigned decimal numbers.
use vstd::prelude::*;

verus! {

pub const NEWLINE: u8 = 10;

pub const CARRIAGE_RETURN: u8 = 13;

pub const COMMA: u8 = 44;

pub const PLUS: u8 = 43;

pub open spec fn is_digit(c: u8) -> bool {
    48 <= c <= 57
}

pub open spec fn all_digits(s: Seq<u8>) -> bool {
    forall|i: int| 0 <= i < s.len() ==> is_digit(#[trigger] s[i])
}

/// The number that a run of decimal digits denotes, most significant first.
pub open spec fn decimal_value(s: Seq<u8>) -> nat
    decreases s.len(),
{
    if s.len() == 0 {
        0
    } else {
        10 * decimal_value(s.drop_last()) + (s.last() - 48) as nat
    }
}

/// The digits of an unsigned decimal, past an optional leading `+`.
pub open spec fn unsigned_digits(s: Seq<u8>) -> Seq<u8> {
    if s.len() > 0 && s[0] == PLUS {
        s.drop_first()
    } else {
        s
    }
}

/// The value of `s` read as an unsigned decimal: an optional `+`, then one or
/// more digits and nothing else.
pub open spec fn unsigned_value(s: Seq<u8>) -> Option<nat> {
    let d = unsigned_digits(s);
    if d.len() > 0 && all_digits(d) {
        Some(decimal_value(d))
    } else {
        None
    }
}

/// The value of `s` as an unsigned decimal, where it is at most `bound`.
pub open spec fn value_within(s: Seq<u8>, bound: nat) -> Option<nat> {
    match unsigned_value(s) {
        Some(v) => if v <= bound {
            Some(v)
        } else {
            None
        },
        None => None,
    }
}

/// The pieces of `s` between occurrences of `sep`; there is always one more
/// piece than there are separators.
pub open spec fn split_on(s: Seq<u8>, sep: u8) -> Seq<Seq<u8>>
    decreases s.len(),
{
    if s.len() == 0 {
        seq![Seq::empty()]
    } else {
        let prev = split_on(s.drop_last(), sep);
        if s.last() == sep {
            prev.push(Seq::empty())
        } else {
            prev.update(prev.len() - 1, prev.last().push(s.last()))
        }
    }
}

pub open spec fn strip_cr(line: Seq<u8>) -> Seq<u8> {
    if line.len() > 0 && line.last() == CARRIAGE_RETURN {
        line.drop_last()
    } else {
        line
    }
}

/// The lines of a text: split at `\n`, a `\r` before a `\n` dropped, and no
/// empty line after a final `\n`.
pub open spec fn text_lines(s: Seq<u8>) -> Seq<Seq<u8>> {
    let p = split_on(s, NEWLINE);
    let body = Seq::new((p.len() - 1) as nat, |k: int| strip_cr(p[k]));
    if p.last().len() == 0 {
        body
    } else {
        body.push(p.last())
    }
}

pub proof fn lemma_split_on_nonempty(s: Seq<u8>, sep: u8)
    ensures
        split_on(s, sep).len() >= 1,
    decreases s.len(),
{
    if s.len() > 0 {
        lemma_split_on_nonempty(s.drop_last(), sep);
    }
}

proof fn lemma_prefix_value_le(s: Seq<u8>, j: int)
    requires
        all_digits(s),
        0 <= j <= s.len(),
    ensures
        decimal_value(s.take(j)) <= decimal_value(s),
    decreases s.len(),
{
    if j < s.len() {
        let t = s.drop_last();
        assert(s.take(j) =~= t.take(j));
        assert(all_digits(t));
        lemma_prefix_value_le(t, j);
    } else {
        assert(s.take(j) =~= s);
    }
}

/// Reads `s` as an unsigned decimal that must not exceed `bound`.
pub fn parse_unsigned(s: &[u8], bound: usize) -> (r: Option<usize>)
    ensures
        match value_within(s@, bound as nat) {
            Some(v) => r == Some(v as usize),
            None => r is None,
        },
{
    let n = s.len();
    let mut start: usize = 0;
    if n > 0 && s[0] == PLUS {
        start = 1;
    }
    let ghost d = unsigned_digits(s@);
    assert(d =~= s@.subrange(start as int, n as int));
    if start >= n {
        return None;
    }
    let mut value: usize = 0;
    let mut i: usize = start;
    while i < n
        invariant
            n == s@.len(),
            start <= i <= n,
            d == unsigned_digits(s@),
            d =~= s@.subrange(start as int, n as int),
            all_digits(d.take(i - start)),
            value as nat == decimal_value(d.take(i - start)),
            value <= bound,
        decreases n - i,
    {
        let c = s[i];
        if c < 48 || c > 57 {
            assert(d[i - start] == c);
            assert(!is_digit(d[i - start]));
            return None;
        }
        let digit: usize = (c - 48) as usize;
        let ghost next = d.take(i - start + 1);
        assert(next.drop_last() =~= d.take(i - start));
        assert(next.last() == c);
        assert(all_digits(next));
        assert(decimal_value(next) == 10 * decimal_value(d.take(i - start)) + digit);
        if digit > bound || value > (bound - digit) / 10 {
            proof {
                let b = bound as int;
                let v = value as int;
                let g = digit as int;
                assert(10 * v + g > b) by (nonlinear_arith)
                    requires
                        g > b || v > (b - g) / 10,
                        v >= 0,
                        g >= 0,
                ;
                if all_digits(d) {
                    lemma_prefix_value_le(d, i - start + 1);
                    assert(decimal_value(d) > bound);
                }
            }
            return None;
        }
        proof {
            let b = bound as int;
            let v = value as int;
            let g = digit as int;
            assert(10 * v + g <= b) by (nonlinear_arith)
                requires
                    g <= b,
                    v <= (b - g) / 10,
                    v >= 0,
            ;
        }
        value = value * 10 + digit;
        i = i + 1;
    }
    assert(d.take(n - start) =~= d);
    Some(value)
}

/// Splits `s` at every `sep`, as `split_on` describes.
pub fn split_bytes(s: &[u8], sep: u8) -> (r: Vec<Vec<u8>>)
    ensures
        r.len() == split_on(s@, sep).len(),
        forall|k: int| 0 <= k < r.len() ==> #[trigger] r[k]@ == split_on(s@, sep)[k],
{
    let mut pieces: Vec<Vec<u8>> = Vec::new();
    let mut current: Vec<u8> = Vec::new();
    let mut i: usize = 0;
    assert(s@.take(0) =~= Seq::<u8>::empty());
    while i < s.len()
        invariant
            i <= s@.len(),
            split_on(s@.take(i as int), sep).len() == pieces.len() + 1,
            forall|k: int|
                0 <= k < pieces.len() ==> #[trigger] pieces[k]@ == split_on(
                    s@.take(i as int),
                    sep,
                )[k],
            current@ == split_on(s@.take(i as int), sep)[pieces.len() as int],
        decreases s.len() - i,
    {
        let c = s[i];
        let ghost before = s@.take(i as int);
        let ghost after = s@.take(i + 1);
        assert(after.drop_last() =~= before);
        assert(after.last() == c);
        if c == sep {
            let done = current;
            pieces.push(done);
            current = Vec::new();
        } else {
            current.push(c);
        }
        i = i + 1;
    }
    assert(s@.take(s@.len() as int) =~= s@);
    pieces.push(current);
    pieces
}

/// The lines of `s`, as `text_lines` describes.
pub fn split_lines(s: &[u8]) -> (r: Vec<Vec<u8>>)
    ensures
        r.len() == text_lines(s@).len(),
        forall|k: int| 0 <= k < r.len() ==> #[trigger] r[k]@ == text_lines(s@)[k],
{
    let pieces = split_bytes(s, NEWLINE);
    let ghost p = split_on(s@, NEWLINE);
    proof {
        lemma_split_on_nonempty(s@, NEWLINE);
    }
    let last = pieces.len() - 1;
    let mut lines: Vec<Vec<u8>> = Vec::new();
    let mut k: usize = 0;
    while k < last
        invariant
            last + 1 == pieces.len() == p.len(),
            forall|j: int| 0 <= j < pieces.len() ==> #[trigger] pieces[j]@ == p[j],
            k <= last,
            lines.len() == k,
            forall|j: int| 0 <= j < k ==> #[trigger] lines[j]@ == strip_cr(p[j]),
        decreases last - k,
    {
        let piece = &pieces[k];
        let mut line: Vec<u8> = Vec::new();
        let plen = piece.len();
        let keep = if plen > 0 && piece[plen - 1] == CARRIAGE_RETURN {
            plen - 1
        } else {
            plen
        };
        let mut j: usize = 0;
        while j < keep
            invariant
                keep <= plen == piece@.len(),
                j <= keep,
                line@ =~= piece@.take(j as int),
            decreases keep - j,
        {
            line.push(piece[j]);
            j = j + 1;
        }
        assert(line@ =~= strip_cr(p[k as int]));
        lines.push(line);
        k = k + 1;
    }
    if pieces[last].len() > 0 {
        let mut tail: Vec<u8> = Vec::new();
        let piece = &pieces[last];
        let mut j: usize = 0;
        while j < piece.len()
            invariant
                j <= piece@.len(),
                tail@ =~= piece@.take(j as int),
            decreases piece.len() - j,
        {
            tail.push(piece[j]);
            j = j + 1;
        }
        assert(tail@ =~= p.last());
        lines.push(tail);
    }
    assert(lines.len() == text_lines(s@).len());
    lines
}

} // verus!
