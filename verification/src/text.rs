//! Character-level text helpers: the decimal and boolean spellings used in
//! map files, and splitting a text at a separator.

use vstd::prelude::*;

verus! {

// ---------------------------------------------------------------------------
// Specifications
// ---------------------------------------------------------------------------

/// `c` is one of the ASCII digits `0` to `9`.
pub open spec fn is_digit(c: char) -> bool {
    '0' <= c && c <= '9'
}

/// The value of an ASCII digit.
pub open spec fn digit_value(c: char) -> nat {
    (c as int - '0' as int) as nat
}

/// The ASCII digit that spells `d` (for `d < 10`).
pub open spec fn digit_char(d: nat) -> char {
    (d + '0' as int) as char
}

/// Every character of `s` is an ASCII digit.
pub open spec fn all_digits(s: Seq<char>) -> bool {
    forall|i: int| 0 <= i < s.len() ==> is_digit(#[trigger] s[i])
}

/// The number that a string of decimal digits spells (leading zeros allowed).
pub open spec fn digits_value(s: Seq<char>) -> nat
    decreases s.len(),
{
    if s.len() == 0 {
        0
    } else {
        digits_value(s.drop_last()) * 10 + digit_value(s.last())
    }
}

/// The shortest decimal spelling of `n`.
pub open spec fn nat_text(n: nat) -> Seq<char>
    decreases n,
{
    if n < 10 {
        seq![digit_char(n)]
    } else {
        nat_text(n / 10).push(digit_char(n % 10))
    }
}

/// How an `i8` is written: an optional minus sign, then its decimal digits.
pub open spec fn i8_text(v: i8) -> Seq<char> {
    if v < 0 {
        seq!['-'] + nat_text((-v) as nat)
    } else {
        nat_text(v as nat)
    }
}

/// How a `bool` is written: `true` or `false`.
pub open spec fn bool_text(b: bool) -> Seq<char> {
    if b {
        seq!['t', 'r', 'u', 'e']
    } else {
        seq!['f', 'a', 'l', 's', 'e']
    }
}

/// Reading a `bool`: exactly `true` or `false`, nothing else.
pub open spec fn parse_bool_spec(s: Seq<char>) -> Option<bool> {
    if s == bool_text(true) {
        Some(true)
    } else if s == bool_text(false) {
        Some(false)
    } else {
        None
    }
}

/// Reading an `i8`: an optional `+` or `-`, then at least one decimal digit,
/// with the value in the range of `i8`.
pub open spec fn parse_i8_spec(s: Seq<char>) -> Option<i8> {
    if s.len() == 0 {
        None
    } else if s[0] == '-' || s[0] == '+' {
        let body = s.drop_first();
        if body.len() == 0 || !all_digits(body) {
            None
        } else if s[0] == '-' {
            if digits_value(body) <= 128 {
                Some((-digits_value(body)) as i8)
            } else {
                None
            }
        } else if digits_value(body) <= 127 {
            Some(digits_value(body) as i8)
        } else {
            None
        }
    } else if all_digits(s) && digits_value(s) <= 127 {
        Some(digits_value(s) as i8)
    } else {
        None
    }
}

/// The pieces of `s` between occurrences of `sep`, in order; there is always
/// at least one piece, and pieces may be empty.
pub open spec fn split_on(s: Seq<char>, sep: char) -> Seq<Seq<char>>
    decreases s.len(),
{
    if s.len() == 0 {
        seq![Seq::<char>::empty()]
    } else {
        let pieces = split_on(s.drop_last(), sep);
        if s.last() == sep {
            pieces.push(Seq::<char>::empty())
        } else {
            pieces.update(pieces.len() - 1, pieces.last().push(s.last()))
        }
    }
}

/// The pieces written one after another with `sep` between neighbours.
pub open spec fn join_with(pieces: Seq<Seq<char>>, sep: char) -> Seq<char>
    decreases pieces.len(),
{
    if pieces.len() == 0 {
        Seq::<char>::empty()
    } else if pieces.len() == 1 {
        pieces[0]
    } else {
        join_with(pieces.drop_last(), sep).push(sep) + pieces.last()
    }
}

/// The character sequences held by a vector of character vectors.
pub open spec fn pieces_view(v: Seq<Vec<char>>) -> Seq<Seq<char>> {
    v.map_values(|x: Vec<char>| x@)
}

/// No piece holds the separator.
pub open spec fn free_of(pieces: Seq<Seq<char>>, sep: char) -> bool {
    forall|i: int| 0 <= i < pieces.len() ==> !(#[trigger] pieces[i]).contains(sep)
}

// ---------------------------------------------------------------------------
// Lemmas
// ---------------------------------------------------------------------------

/// Splitting always yields at least one piece.
pub proof fn lemma_split_nonempty(s: Seq<char>, sep: char)
    ensures
        split_on(s, sep).len() >= 1,
    decreases s.len(),
{
    if s.len() > 0 {
        lemma_split_nonempty(s.drop_last(), sep);
    }
}

/// Appending text without the separator extends the last piece.
proof fn lemma_split_append_free(x: Seq<char>, b: Seq<char>, sep: char)
    requires
        !b.contains(sep),
    ensures
        ({
            let p = split_on(x, sep);
            split_on(x + b, sep) == p.update(p.len() - 1, p.last() + b)
        }),
    decreases b.len(),
{
    lemma_split_nonempty(x, sep);
    let p = split_on(x, sep);
    if b.len() == 0 {
        assert(x + b =~= x);
        assert(p.last() + b =~= p.last());
        assert(p.update(p.len() - 1, p.last() + b) =~= p);
    } else {
        let b0 = b.drop_last();
        assert(!b0.contains(sep)) by {
            if b0.contains(sep) {
                let k = choose|k: int| 0 <= k < b0.len() && b0[k] == sep;
                assert(b[k] == sep);
            }
        }
        assert(b.last() != sep) by {
            assert(b[b.len() - 1] == b.last());
        }
        lemma_split_append_free(x, b0, sep);
        assert((x + b).drop_last() =~= x + b0);
        assert((x + b).last() == b.last());
        lemma_split_nonempty(x + b0, sep);
        assert(p.last() + b =~= (p.last() + b0).push(b.last()));
    }
}

/// Splitting what was joined gives back the pieces, when no piece holds the
/// separator and there is at least one piece.
pub proof fn lemma_split_join(pieces: Seq<Seq<char>>, sep: char)
    requires
        pieces.len() >= 1,
        free_of(pieces, sep),
    ensures
        split_on(join_with(pieces, sep), sep) == pieces,
    decreases pieces.len(),
{
    if pieces.len() == 1 {
        let e = Seq::<char>::empty();
        lemma_split_append_free(e, pieces[0], sep);
        assert(e + pieces[0] =~= pieces[0]);
        assert(split_on(e, sep) =~= seq![e]);
        assert(seq![e].update(0, e + pieces[0]) =~= pieces);
    } else {
        let front = pieces.drop_last();
        assert(free_of(front, sep)) by {
            assert forall|i: int| 0 <= i < front.len() implies !(#[trigger] front[i]).contains(sep) by {
                assert(front[i] == pieces[i]);
            }
        }
        lemma_split_join(front, sep);
        let j = join_with(front, sep);
        let last = pieces.last();
        assert(!last.contains(sep)) by {
            assert(last == pieces[pieces.len() - 1]);
        }
        assert(j.push(sep).drop_last() =~= j);
        lemma_split_append_free(j.push(sep), last, sep);
        let q = split_on(j.push(sep), sep);
        assert(q == front.push(Seq::<char>::empty()));
        assert(q.update(q.len() - 1, q.last() + last) =~= pieces) by {
            assert(Seq::<char>::empty() + last =~= last);
        }
    }
}

/// The value of the spelling of `n` is `n`, and the spelling is all digits.
pub proof fn lemma_nat_text(n: nat)
    ensures
        all_digits(nat_text(n)),
        nat_text(n).len() >= 1,
        digits_value(nat_text(n)) == n,
    decreases n,
{
    if n < 10 {
        assert(seq![digit_char(n)].drop_last() =~= Seq::<char>::empty());
        assert(digit_value(digit_char(n)) == n);
        let t = seq![digit_char(n)];
        assert(t.last() == digit_char(n));
        assert(digits_value(t.drop_last()) == 0);
        assert(digits_value(t) == n);
    } else {
        lemma_nat_text(n / 10);
        assert(digit_value(digit_char(n % 10)) == n % 10);
        let t = nat_text(n / 10).push(digit_char(n % 10));
        assert(t.drop_last() =~= nat_text(n / 10));
        assert((n / 10) * 10 + n % 10 == n) by (nonlinear_arith);
        assert(t.last() == digit_char(n % 10));
        assert(digits_value(t) == n);
    }
}

/// Reading the spelling of an `i8` gives it back.
pub proof fn lemma_i8_roundtrip(v: i8)
    ensures
        parse_i8_spec(i8_text(v)) == Some(v),
{
    if v < 0 {
        let m = (-v) as nat;
        lemma_nat_text(m);
        let s = seq!['-'] + nat_text(m);
        assert(s.drop_first() =~= nat_text(m));
        assert(s[0] == '-');
    } else {
        lemma_nat_text(v as nat);
        let s = nat_text(v as nat);
        assert(s[0] != '-' && s[0] != '+') by {
            assert(is_digit(s[0]));
        }
    }
}

/// Reading the spelling of a `bool` gives it back.
pub proof fn lemma_bool_roundtrip(b: bool)
    ensures
        parse_bool_spec(bool_text(b)) == Some(b),
{
    if !b {
        assert(bool_text(false) != bool_text(true)) by {
            assert(bool_text(false).len() != bool_text(true).len());
        }
    }
}

// ---------------------------------------------------------------------------
// Executable functions
// ---------------------------------------------------------------------------

/// Appends one character to a `String` (std's `String::push`).
#[verifier::external_body]
pub(crate) fn push_char(s: &mut String, c: char)
    ensures
        final(s)@ == old(s)@.push(c),
{
    s.push(c)
}

/// Collects the characters of `s` in order.
pub fn chars_of(s: &str) -> (res: Vec<char>)
    ensures
        res@ == s@,
{
    let mut res: Vec<char> = Vec::new();
    for c in it: s.chars()
        invariant
            res@ == it.seq().take(it.index() as int),
    {
        res.push(c);
    }
    res
}

/// Builds a `String` from characters.
pub fn string_of(cs: &Vec<char>) -> (res: String)
    ensures
        res@ == cs@,
{
    let mut res = String::new();
    let mut i: usize = 0;
    while i < cs.len()
        invariant
            i <= cs.len(),
            res@ == cs@.take(i as int),
        decreases cs.len() - i,
    {
        push_char(&mut res, cs[i]);
        assert(cs@.take(i + 1) =~= cs@.take(i as int).push(cs@[i as int]));
        i = i + 1;
    }
    assert(cs@.take(cs.len() as int) =~= cs@);
    res
}

/// Appends the decimal spelling of `n`.
fn push_nat_text(out: &mut String, n: u8)
    ensures
        final(out)@ == old(out)@ + nat_text(n as nat),
    decreases n,
{
    if n >= 10 {
        push_nat_text(out, n / 10);
    }
    let d: u8 = n % 10;
    let c: char = (d + 48) as char;
    assert(c == digit_char((n % 10) as nat));
    push_char(out, c);
    proof {
        if n < 10 {
            assert(old(out)@ + nat_text(n as nat) =~= old(out)@.push(c));
        } else {
            assert(old(out)@ + nat_text(n as nat) =~= (old(out)@ + nat_text((n / 10) as nat)).push(c));
        }
    }
}

/// Appends the spelling of an `i8` (std's `Display` for `i8`).
pub fn push_i8_text(out: &mut String, v: i8)
    ensures
        final(out)@ == old(out)@ + i8_text(v),
{
    if v < 0 {
        push_char(out, '-');
        let m: u8 = (0i16 - v as i16) as u8;
        push_nat_text(out, m);
        assert(old(out)@ + i8_text(v) =~= old(out)@.push('-') + nat_text(m as nat));
    } else {
        push_nat_text(out, v as u8);
    }
}

/// Appends the spelling of a `bool` (std's `Display` for `bool`).
pub fn push_bool_text(out: &mut String, b: bool)
    ensures
        final(out)@ == old(out)@ + bool_text(b),
{
    let ghost start = out@;
    if b {
        push_char(out, 't');
        push_char(out, 'r');
        push_char(out, 'u');
        push_char(out, 'e');
    } else {
        push_char(out, 'f');
        push_char(out, 'a');
        push_char(out, 'l');
        push_char(out, 's');
        push_char(out, 'e');
    }
    assert(out@ =~= start + bool_text(b));
}

/// Reads a `bool` spelled exactly `true` or `false` (std's `FromStr` for `bool`).
pub fn parse_bool(s: &Vec<char>) -> (res: Option<bool>)
    ensures
        res == parse_bool_spec(s@),
{
    if s.len() == 4 && s[0] == 't' && s[1] == 'r' && s[2] == 'u' && s[3] == 'e' {
        assert(s@ =~= bool_text(true));
        Some(true)
    } else if s.len() == 5 && s[0] == 'f' && s[1] == 'a' && s[2] == 'l' && s[3] == 's' && s[4] == 'e' {
        assert(s@ =~= bool_text(false));
        Some(false)
    } else {
        proof {
            if s@ == bool_text(true) {
                assert(s@[0] == 't' && s@[1] == 'r' && s@[2] == 'u' && s@[3] == 'e');
            }
            if s@ == bool_text(false) {
                assert(s@[0] == 'f' && s@[1] == 'a' && s@[2] == 'l' && s@[3] == 's' && s@[4] == 'e');
            }
        }
        None
    }
}

/// The digits of `s` from index `start` on, read as a number capped at 129.
fn capped_digits(s: &Vec<char>, start: usize) -> (res: Option<u32>)
    requires
        start <= s.len(),
    ensures
        ({
            let body = s@.skip(start as int);
            match res {
                Some(v) => all_digits(body) && v == if digits_value(body) <= 128 {
                    digits_value(body)
                } else {
                    129
                },
                None => !all_digits(body),
            }
        }),
{
    let ghost body = s@.skip(start as int);
    let mut acc: u32 = 0;
    let mut i: usize = start;
    while i < s.len()
        invariant
            start <= i <= s.len(),
            body == s@.skip(start as int),
            all_digits(body.take(i - start)),
            acc == if digits_value(body.take(i - start)) <= 128 {
                digits_value(body.take(i - start))
            } else {
                129
            },
        decreases s.len() - i,
    {
        let c = s[i];
        if !('0' <= c && c <= '9') {
            assert(body[i - start] == c);
            return None;
        }
        let d: u32 = (c as u32) - 48;
        let ghost pre = body.take(i - start);
        let ghost next = body.take(i + 1 - start);
        assert(next.drop_last() =~= pre);
        assert(next.last() == c);
        if acc > 128 {
            acc = 129;
        } else {
            acc = acc * 10 + d;
            if acc > 128 {
                acc = 129;
            }
        }
        i = i + 1;
        assert(all_digits(body.take(i - start))) by {
            assert forall|k: int| 0 <= k < next.len() implies is_digit(#[trigger] next[k]) by {
                if k < pre.len() {
                    assert(next[k] == pre[k]);
                }
            }
        }
    }
    assert(body.take(i - start) =~= body);
    Some(acc)
}

/// Reads an `i8`: an optional sign, then decimal digits within range
/// (std's `FromStr` for `i8`).
pub fn parse_i8(s: &Vec<char>) -> (res: Option<i8>)
    ensures
        res == parse_i8_spec(s@),
{
    if s.len() == 0 {
        return None;
    }
    let first = s[0];
    if first == '-' || first == '+' {
        if s.len() == 1 {
            assert(s@.drop_first().len() == 0);
            return None;
        }
        assert(s@.skip(1) =~= s@.drop_first());
        match capped_digits(s, 1) {
            None => None,
            Some(v) => {
                if first == '-' {
                    if v <= 128 {
                        Some((0i32 - v as i32) as i8)
                    } else {
                        None
                    }
                } else if v <= 127 {
                    Some(v as i8)
                } else {
                    None
                }
            },
        }
    } else {
        assert(s@.skip(0) =~= s@);
        match capped_digits(s, 0) {
            None => None,
            Some(v) => {
                if v <= 127 {
                    Some(v as i8)
                } else {
                    None
                }
            },
        }
    }
}

/// The pieces of `s` between occurrences of `sep` (std's `str::split` with a
/// `char` pattern).
pub fn split_chars(s: &Vec<char>, sep: char) -> (res: Vec<Vec<char>>)
    ensures
        pieces_view(res@) == split_on(s@, sep),
{
    let mut pieces: Vec<Vec<char>> = Vec::new();
    let mut cur: Vec<char> = Vec::new();
    let mut i: usize = 0;
    while i < s.len()
        invariant
            i <= s.len(),
            pieces_view(pieces@).push(cur@) == split_on(s@.take(i as int), sep),
        decreases s.len() - i,
    {
        let c = s[i];
        let ghost before = pieces_view(pieces@).push(cur@);
        assert(s@.take(i + 1).drop_last() =~= s@.take(i as int));
        assert(s@.take(i + 1).last() == c);
        if c == sep {
            let done = cur;
            pieces.push(done);
            cur = Vec::new();
            assert(pieces_view(pieces@) =~= before);
            assert(pieces_view(pieces@).push(cur@) =~= before.push(Seq::<char>::empty()));
        } else {
            cur.push(c);
            assert(pieces_view(pieces@).push(cur@) =~= before.update(before.len() - 1, before.last().push(c)));
        }
        i = i + 1;
    }
    assert(s@.take(s.len() as int) =~= s@);
    let ghost before = pieces_view(pieces@).push(cur@);
    pieces.push(cur);
    assert(pieces_view(pieces@) =~= before);
    pieces
}

} // verus!
