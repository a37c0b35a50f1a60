//! Canonical JSON text primitives.
//!
//! Every message on the wire is an object in one fixed, canonical form: no
//! whitespace, keys in a fixed order, integers of at most eighteen digits
//! with no superfluous leading zero, and strings in which only `"` and `\`
//! are escaped (by a backslash) and control characters do not occur.  The
//! spec functions here define that form; the exec functions encode into it
//! and decode exactly it, rejecting everything else.

use vstd::prelude::*;

verus! {

// ---------------------------------------------------------------------------
// Digits and integers
// ---------------------------------------------------------------------------

/// Largest magnitude (exclusive) an integer on the wire may have: 10^18,
/// small enough that eighteen digits never overflow a `u64`.
pub const INT_MAGNITUDE_LIMIT: u64 = 1_000_000_000_000_000_000;

pub open spec fn is_digit(c: char) -> bool {
    48 <= c as int && c as int <= 57
}

pub open spec fn digit_val(c: char) -> int {
    c as int - 48
}

pub open spec fn digit_char(d: int) -> char {
    if d == 0 { '0' }
    else if d == 1 { '1' }
    else if d == 2 { '2' }
    else if d == 3 { '3' }
    else if d == 4 { '4' }
    else if d == 5 { '5' }
    else if d == 6 { '6' }
    else if d == 7 { '7' }
    else if d == 8 { '8' }
    else { '9' }
}

/// Decimal text of a non-negative integer, most significant digit first.
pub open spec fn nat_text(n: int) -> Seq<char>
    decreases n,
{
    if n < 10 { seq![digit_char(n)] } else { nat_text(n / 10).push(digit_char(n % 10)) }
}

/// Decimal text of an integer, with a leading minus sign when negative.
pub open spec fn int_text(n: int) -> Seq<char> {
    if n < 0 { seq!['-'] + nat_text(-n) } else { nat_text(n) }
}

/// Whether `n` is small enough to stand on the wire.
pub open spec fn int_wf(n: int) -> bool {
    -(INT_MAGNITUDE_LIMIT as int) < n < INT_MAGNITUDE_LIMIT as int
}

pub open spec fn pow10(n: int) -> int
    decreases n,
{
    if n <= 0 { 1 } else { 10 * pow10(n - 1) }
}

// ---------------------------------------------------------------------------
// String escaping
// ---------------------------------------------------------------------------

/// How one character stands inside a quoted string.
pub open spec fn esc_char(c: char) -> Seq<char> {
    if c == '"' { seq!['\\', '"'] } else if c == '\\' { seq!['\\', '\\'] } else { seq![c] }
}

pub open spec fn esc_text(s: Seq<char>) -> Seq<char>
    decreases s.len(),
{
    if s.len() == 0 { Seq::empty() } else { esc_char(s[0]) + esc_text(s.skip(1)) }
}

/// A quoted, escaped string.
pub open spec fn string_text(s: Seq<char>) -> Seq<char> {
    seq!['"'] + esc_text(s) + seq!['"']
}

/// Control characters cannot stand on the wire; everything else can.
pub open spec fn text_wf(s: Seq<char>) -> bool {
    forall|k: int| 0 <= k < s.len() ==> (#[trigger] s[k]) as int >= 32
}

// ---------------------------------------------------------------------------
// Trusted primitive
// ---------------------------------------------------------------------------

/// Relies on `String::push`: appends the given character to the end of the
/// string.
#[verifier::external_body]
pub fn push_char(s: &mut String, c: char)
    ensures
        final(s)@ == old(s)@.push(c),
{
    s.push(c);
}

// ---------------------------------------------------------------------------
// Encoding
// ---------------------------------------------------------------------------

fn char_of_digit(d: u64) -> (c: char)
    requires
        d < 10,
    ensures
        c == digit_char(d as int),
{
    if d == 0 { '0' }
    else if d == 1 { '1' }
    else if d == 2 { '2' }
    else if d == 3 { '3' }
    else if d == 4 { '4' }
    else if d == 5 { '5' }
    else if d == 6 { '6' }
    else if d == 7 { '7' }
    else if d == 8 { '8' }
    else { '9' }
}

/// Appends the decimal text of `n`.
pub fn push_u64(out: &mut String, n: u64)
    ensures
        final(out)@ == old(out)@ + nat_text(n as int),
    decreases n,
{
    if n < 10 {
        push_char(out, char_of_digit(n));
        proof {
            assert(old(out)@ + nat_text(n as int) =~= old(out)@.push(digit_char(n as int)));
        }
    } else {
        push_u64(out, n / 10);
        push_char(out, char_of_digit(n % 10));
    }
}

/// Appends the decimal text of `n`, minus sign included.
pub fn push_i64(out: &mut String, n: i64)
    requires
        int_wf(n as int),
    ensures
        final(out)@ == old(out)@ + int_text(n as int),
{
    if n < 0 {
        push_char(out, '-');
        push_u64(out, (-n) as u64);
        proof {
            assert(old(out)@ + int_text(n as int) =~= old(out)@.push('-') + nat_text(-(n as int)));
        }
    } else {
        push_u64(out, n as u64);
    }
}

fn push_esc_from(out: &mut String, s: &str, k: usize)
    requires
        k <= s@.len(),
    ensures
        final(out)@ == old(out)@ + esc_text(s@.skip(k as int)),
    decreases s@.len() - k@,
{
    let len = s.unicode_len();
    if k < len {
        let c = s.get_char(k);
        if c == '"' {
            push_char(out, '\\');
            push_char(out, '"');
        } else if c == '\\' {
            push_char(out, '\\');
            push_char(out, '\\');
        } else {
            push_char(out, c);
        }
        assert(out@ == old(out)@ + esc_char(s@[k as int]));
        push_esc_from(out, s, k + 1);
        proof {
            assert(s@.skip(k as int)[0] == s@[k as int]);
            assert(s@.skip(k as int).skip(1) =~= s@.skip(k as int + 1));
            assert(old(out)@ + esc_char(s@[k as int]) + esc_text(s@.skip(k as int + 1))
                =~= old(out)@ + esc_text(s@.skip(k as int)));
        }
    } else {
        proof {
            assert(s@.skip(k as int) =~= Seq::<char>::empty());
            assert(old(out)@ + esc_text(s@.skip(k as int)) =~= old(out)@);
        }
    }
}

/// Appends `s` as a quoted, escaped string.
pub fn push_string_text(out: &mut String, s: &str)
    ensures
        final(out)@ == old(out)@ + string_text(s@),
{
    push_char(out, '"');
    push_esc_from(out, s, 0);
    push_char(out, '"');
    proof {
        assert(s@.skip(0) =~= s@);
        assert(old(out)@.push('"') + esc_text(s@) =~= old(out)@ + seq!['"'] + esc_text(s@));
        assert((old(out)@ + seq!['"'] + esc_text(s@)).push('"')
            =~= old(out)@ + string_text(s@));
    }
}

// ---------------------------------------------------------------------------
// Decoding: spec
// ---------------------------------------------------------------------------

/// First position at or after `i` that does not hold a digit.
pub open spec fn digit_run_end(s: Seq<char>, i: int) -> int
    decreases s.len() - i,
{
    if i < s.len() && is_digit(s[i]) { digit_run_end(s, i + 1) } else { i }
}

/// Value of the digits `s[i..j]`.
pub open spec fn digits_val(s: Seq<char>, i: int, j: int) -> int
    decreases j - i,
{
    if j <= i { 0 } else { digits_val(s, i, j - 1) * 10 + digit_val(s[j - 1]) }
}

/// Canonical non-negative integer at `i`: one to eighteen digits, no leading
/// zero unless the number is zero itself.  Yields the value and the position
/// after the digits.
pub open spec fn spec_parse_nat(s: Seq<char>, i: int) -> Option<(int, int)> {
    let j = digit_run_end(s, i);
    if j == i { None }
    else if j - i > 18 { None }
    else if s[i] == '0' && j - i > 1 { None }
    else { Some((digits_val(s, i, j), j)) }
}

/// Canonical integer at `i`: an optional minus sign (never on zero) before a
/// canonical non-negative integer.
pub open spec fn spec_parse_int(s: Seq<char>, i: int) -> Option<(int, int)> {
    if i < s.len() && s[i] == '-' {
        match spec_parse_nat(s, i + 1) {
            Some((v, j)) => if v == 0 { None } else { Some((-v, j)) },
            None => None,
        }
    } else {
        spec_parse_nat(s, i)
    }
}

/// Body of a quoted string starting just after the opening quote: raw
/// characters (no controls, no bare `"` or `\`) and the two escapes, up to
/// the closing quote.  Yields the unescaped text and the position after the
/// closing quote.
pub open spec fn spec_parse_strbody(s: Seq<char>, i: int) -> Option<(Seq<char>, int)>
    decreases s.len() - i,
{
    if i < 0 || i >= s.len() { None }
    else if s[i] == '"' { Some((Seq::empty(), i + 1)) }
    else if s[i] == '\\' {
        if i + 1 < s.len() && (s[i + 1] == '"' || s[i + 1] == '\\') {
            match spec_parse_strbody(s, i + 2) {
                Some((t, j)) => Some((seq![s[i + 1]] + t, j)),
                None => None,
            }
        } else {
            None
        }
    } else if (s[i] as int) < 32 { None }
    else {
        match spec_parse_strbody(s, i + 1) {
            Some((t, j)) => Some((seq![s[i]] + t, j)),
            None => None,
        }
    }
}

/// A quoted string at `i`.
pub open spec fn spec_parse_string(s: Seq<char>, i: int) -> Option<(Seq<char>, int)> {
    if 0 <= i < s.len() && s[i] == '"' { spec_parse_strbody(s, i + 1) } else { None }
}

/// The literal `l` standing at `i`; yields the position after it.
pub open spec fn spec_parse_lit(s: Seq<char>, i: int, l: Seq<char>) -> Option<int> {
    if 0 <= i && i + l.len() <= s.len() && s.subrange(i, i + l.len()) == l {
        Some(i + l.len())
    } else {
        None
    }
}

// ---------------------------------------------------------------------------
// Decoding: lemmas
// ---------------------------------------------------------------------------

pub proof fn lemma_digit_run_end(s: Seq<char>, i: int)
    requires
        0 <= i <= s.len(),
    ensures
        i <= digit_run_end(s, i) <= s.len(),
        forall|k: int| i <= k < digit_run_end(s, i) ==> is_digit(#[trigger] s[k]),
        digit_run_end(s, i) < s.len() ==> !is_digit(s[digit_run_end(s, i)]),
    decreases s.len() - i,
{
    if i < s.len() && is_digit(s[i]) {
        lemma_digit_run_end(s, i + 1);
    }
}

pub proof fn lemma_digits_val_bound(s: Seq<char>, i: int, j: int)
    requires
        i <= j,
        forall|k: int| i <= k < j ==> is_digit(#[trigger] s[k]),
    ensures
        0 <= digits_val(s, i, j) < pow10(j - i),
    decreases j - i,
{
    if j > i {
        lemma_digits_val_bound(s, i, j - 1);
        assert(pow10(j - i) == 10 * pow10(j - i - 1));
    }
}

pub proof fn lemma_pow10_mono(a: int, b: int)
    requires
        a <= b,
    ensures
        pow10(a) <= pow10(b),
    decreases b - a,
{
    if a < b {
        lemma_pow10_mono(a, b - 1);
        lemma_pow10_pos(b - 1);
        if b > 0 {
            assert(pow10(b) == 10 * pow10(b - 1));
        }
    }
}

pub proof fn lemma_pow10_pos(n: int)
    ensures
        pow10(n) >= 1,
    decreases n,
{
    if n > 0 {
        lemma_pow10_pos(n - 1);
    }
}

// ---------------------------------------------------------------------------
// Decoding inverts encoding
// ---------------------------------------------------------------------------

proof fn lemma_digits_val_agree(a: Seq<char>, b: Seq<char>, i: int, j: int)
    requires
        0 <= i <= j,
        forall|k: int| i <= k < j ==> a[k] == b[k],
    ensures
        digits_val(a, i, j) == digits_val(b, i, j),
    decreases j - i,
{
    if j > i {
        lemma_digits_val_agree(a, b, i, j - 1);
    }
}

proof fn lemma_digits_val_shift(s: Seq<char>, i: int, j: int, d: Seq<char>)
    requires
        0 <= i <= j <= s.len(),
        d == s.subrange(i, j),
    ensures
        digits_val(s, i, j) == digits_val(d, 0, d.len() as int),
    decreases j - i,
{
    if j > i {
        lemma_digits_val_shift(s, i, j - 1, s.subrange(i, j - 1));
        lemma_digits_val_agree(s.subrange(i, j - 1), d, 0, j - 1 - i);
        assert(d[j - 1 - i] == s[j - 1]);
    }
}

/// The decimal text of `n` is one to `m` digits for `n < pow10(m)`, all
/// digits, with no leading zero unless `n` is zero, and its digits read
/// back as `n`.
pub proof fn lemma_nat_text_props(n: int)
    requires
        0 <= n,
    ensures
        1 <= nat_text(n).len(),
        forall|k: int| 0 <= k < nat_text(n).len() ==> is_digit(#[trigger] nat_text(n)[k]),
        digits_val(nat_text(n), 0, nat_text(n).len() as int) == n,
        n >= 1 ==> nat_text(n)[0] != '0',
        n == 0 ==> nat_text(n) == seq!['0'],
        n >= 10 ==> nat_text(n).len() == nat_text(n / 10).len() + 1,
    decreases n,
{
    if n < 10 {
        let t = nat_text(n);
        assert(t == seq![digit_char(n)]);
        assert(digits_val(t, 0, 0) == 0);
        assert(digits_val(t, 0, 1) == digits_val(t, 0, 0) * 10 + digit_val(t[0]));
    } else {
        lemma_nat_text_props(n / 10);
        let t = nat_text(n);
        let h = nat_text(n / 10);
        let hl = h.len() as int;
        assert(t == h.push(digit_char(n % 10)));
        assert(forall|k: int| 0 <= k < hl ==> t[k] == h[k]);
        lemma_digits_val_agree(t, h, 0, hl);
        assert(digits_val(t, 0, hl + 1) == digits_val(t, 0, hl) * 10 + digit_val(t[hl]));
    }
}

/// The decimal text of an `n` below `pow10(m)` has at most `m` digits.
pub proof fn lemma_nat_text_len(n: int, m: int)
    requires
        0 <= n < pow10(m),
        1 <= m,
    ensures
        nat_text(n).len() <= m,
    decreases n,
{
    if n < 10 {
    } else {
        assert(pow10(m) == 10 * pow10(m - 1));
        if m == 1 {
            lemma_pow10_pos(0);
            assert(false);
        }
        lemma_nat_text_len(n / 10, m - 1);
        lemma_nat_text_props(n / 10);
        lemma_nat_text_props(n);
    }
}

proof fn lemma_digit_run_end_exact(s: Seq<char>, i: int, e: int)
    requires
        0 <= i <= e <= s.len(),
        forall|k: int| i <= k < e ==> is_digit(#[trigger] s[k]),
        e < s.len() ==> !is_digit(s[e]),
    ensures
        digit_run_end(s, i) == e,
    decreases e - i,
{
    if i < e {
        lemma_digit_run_end_exact(s, i + 1, e);
    }
}

/// Where the text of `n` stands at `i` with no digit right after it, the
/// integer grammar finds exactly `n` there.
pub proof fn lemma_parse_nat_of_text(s: Seq<char>, i: int, n: int)
    requires
        int_wf(n),
        0 <= n,
        0 <= i,
        i + nat_text(n).len() <= s.len(),
        s.subrange(i, i + nat_text(n).len()) == nat_text(n),
        i + nat_text(n).len() < s.len() ==> !is_digit(s[i + nat_text(n).len()]),
    ensures
        spec_parse_nat(s, i) == Some((n, i + nat_text(n).len())),
{
    let t = nat_text(n);
    let l = t.len() as int;
    lemma_nat_text_props(n);
    assert forall|k: int| i <= k < i + l implies is_digit(#[trigger] s[k]) by {
        assert(s[k] == t[k - i]);
    }
    lemma_digit_run_end_exact(s, i, i + l);
    reveal_with_fuel(pow10, 19);
    lemma_nat_text_len(n, 18);
    lemma_digits_val_shift(s, i, i + l, t);
    assert(s[i] == t[0]);
    if n == 0 {
        assert(l == 1);
    } else {
        assert(s[i] != '0');
    }
}

/// The same, for a possibly negative integer.
pub proof fn lemma_parse_int_of_text(s: Seq<char>, i: int, n: int)
    requires
        int_wf(n),
        0 <= i,
        i + int_text(n).len() <= s.len(),
        s.subrange(i, i + int_text(n).len()) == int_text(n),
        i + int_text(n).len() < s.len() ==> !is_digit(s[i + int_text(n).len()]),
    ensures
        spec_parse_int(s, i) == Some((n, i + int_text(n).len())),
{
    let t = int_text(n);
    let l = t.len() as int;
    if n < 0 {
        let u = nat_text(-n);
        assert(t == seq!['-'] + u);
        assert(s[i] == s.subrange(i, i + l)[0]);
        assert(s[i] == '-');
        assert(s.subrange(i + 1, i + l) =~= u) by {
            assert forall|k: int| 0 <= k < u.len() implies s.subrange(i + 1, i + l)[k] == u[k] by {
                assert(s[i + 1 + k] == t[1 + k]);
            }
        }
        lemma_parse_nat_of_text(s, i + 1, -n);
        lemma_nat_text_props(-n);
    } else {
        lemma_nat_text_props(n);
        assert(s[i] == t[0]);
        assert(is_digit(s[i]));
        assert(s[i] != '-');
        lemma_parse_nat_of_text(s, i, n);
    }
}

/// Where the escaped body of `t` stands at `i`, closing quote included,
/// the string grammar reads back exactly `t`.
proof fn lemma_parse_strbody_of_text(s: Seq<char>, i: int, t: Seq<char>)
    requires
        text_wf(t),
        0 <= i,
        i + esc_text(t).len() + 1 <= s.len(),
        s.subrange(i, i + esc_text(t).len() + 1) == esc_text(t) + seq!['"'],
    ensures
        spec_parse_strbody(s, i) == Some((t, i + esc_text(t).len() + 1)),
    decreases t.len(),
{
    let e = esc_text(t);
    let l = e.len() as int;
    if t.len() == 0 {
        assert(s[i] == (e + seq!['"'])[0]);
        assert(s[i] == '"');
    } else {
        let c = t[0];
        let rest = t.skip(1);
        let erest = esc_text(rest);
        assert(e == esc_char(c) + erest);
        assert(text_wf(rest)) by {
            assert(forall|k: int| 0 <= k < rest.len() ==> rest[k] == t[k + 1]);
        }
        assert(c as int >= 32);
        let cl = esc_char(c).len() as int;
        assert(s.subrange(i + cl, i + l + 1) =~= erest + seq!['"']) by {
            assert forall|k: int| 0 <= k < erest.len() + 1 implies s.subrange(
                i + cl,
                i + l + 1,
            )[k] == (erest + seq!['"'])[k] by {
                assert(s[i + cl + k] == (e + seq!['"'])[cl + k]);
            }
        }
        lemma_parse_strbody_of_text(s, i + cl, rest);
        if c == '"' {
            assert(s[i] == (e + seq!['"'])[0]);
            assert(s[i + 1] == (e + seq!['"'])[1]);
            assert(s[i] == '\\' && s[i + 1] == '"');
            assert(spec_parse_strbody(s, i) == Some((seq![s[i + 1]] + rest, i + l + 1)));
            assert(seq![s[i + 1]] + rest =~= t);
        } else if c == '\\' {
            assert(s[i] == (e + seq!['"'])[0]);
            assert(s[i + 1] == (e + seq!['"'])[1]);
            assert(s[i] == '\\' && s[i + 1] == '\\');
            assert(spec_parse_strbody(s, i) == Some((seq![s[i + 1]] + rest, i + l + 1)));
            assert(seq![s[i + 1]] + rest =~= t);
        } else {
            assert(s[i] == (e + seq!['"'])[0]);
            assert(s[i] == c);
            assert(s[i] != '"' && s[i] != '\\');
            assert(spec_parse_strbody(s, i) == Some((seq![s[i]] + rest, i + l + 1)));
            assert(seq![s[i]] + rest =~= t);
        }
    }
}

/// Where the quoted text of `t` stands at `i`, the string grammar reads
/// back exactly `t`.
pub proof fn lemma_parse_string_of_text(s: Seq<char>, i: int, t: Seq<char>)
    requires
        text_wf(t),
        0 <= i,
        i + string_text(t).len() <= s.len(),
        s.subrange(i, i + string_text(t).len()) == string_text(t),
    ensures
        spec_parse_string(s, i) == Some((t, i + string_text(t).len())),
{
    let q = string_text(t);
    let l = q.len() as int;
    assert(s[i] == q[0]);
    assert(s[i] == '"');
    assert(s.subrange(i + 1, i + l) =~= esc_text(t) + seq!['"']) by {
        assert forall|k: int| 0 <= k < l - 1 implies s.subrange(i + 1, i + l)[k] == (esc_text(t)
            + seq!['"'])[k] by {
            assert(s[i + 1 + k] == q[1 + k]);
            assert(q[1 + k] == (esc_text(t) + seq!['"'])[k]);
        }
    }
    lemma_parse_strbody_of_text(s, i + 1, t);
}

/// Where the literal `l` stands at `i`, the grammar steps over it.
pub proof fn lemma_parse_lit_of_text(s: Seq<char>, i: int, l: Seq<char>)
    requires
        0 <= i,
        i + l.len() <= s.len(),
        s.subrange(i, i + l.len()) == l,
    ensures
        spec_parse_lit(s, i, l) == Some(i + l.len()),
{
}

// ---------------------------------------------------------------------------
// Decoding: exec
// ---------------------------------------------------------------------------

pub open spec fn num_view(r: Option<(u64, usize)>) -> Option<(int, int)> {
    match r {
        Some((v, j)) => Some((v as int, j as int)),
        None => None,
    }
}

pub open spec fn inum_view(r: Option<(i64, usize)>) -> Option<(int, int)> {
    match r {
        Some((v, j)) => Some((v as int, j as int)),
        None => None,
    }
}

pub open spec fn strpos_view(r: Option<(String, usize)>) -> Option<(Seq<char>, int)> {
    match r {
        Some((t, j)) => Some((t@, j as int)),
        None => None,
    }
}

pub open spec fn pos_view(r: Option<usize>) -> Option<int> {
    match r {
        Some(j) => Some(j as int),
        None => None,
    }
}

fn is_digit_at(s: &str, k: usize) -> (b: bool)
    requires
        k < s@.len(),
    ensures
        b == is_digit(s@[k as int]),
{
    let u = s.get_char(k) as u32;
    48 <= u && u <= 57
}

/// Decodes a canonical non-negative integer at `i`.
pub fn parse_nat(s: &str, i: usize) -> (r: Option<(u64, usize)>)
    requires
        i <= s@.len(),
    ensures
        num_view(r) == spec_parse_nat(s@, i as int),
        r matches Some((v, j)) ==> i < j <= s@.len() && v < INT_MAGNITUDE_LIMIT,
{
    let len = s.unicode_len();
    let mut j = i;
    while j < len && is_digit_at(s, j)
        invariant
            i <= j <= len,
            len == s@.len(),
            digit_run_end(s@, i as int) == digit_run_end(s@, j as int),
        decreases len - j,
    {
        j = j + 1;
    }
    proof {
        lemma_digit_run_end(s@, i as int);
        assert(digit_run_end(s@, j as int) == j);
    }
    if j == i || j - i > 18 {
        return None;
    }
    if s.get_char(i) == '0' && j - i > 1 {
        return None;
    }
    let ghost jj = j as int;
    let mut val: u64 = 0;
    let mut k = i;
    while k < j
        invariant
            i <= k <= j <= s@.len(),
            jj == j as int,
            j - i <= 18,
            digit_run_end(s@, i as int) == jj,
            val == digits_val(s@, i as int, k as int),
            val < pow10(k as int - i as int),
        decreases j - k,
    {
        proof {
            lemma_digit_run_end(s@, i as int);
            lemma_pow10_mono(k as int - i as int + 1, 18);
            reveal_with_fuel(pow10, 19);
            assert(pow10(18) == 1_000_000_000_000_000_000);
            assert(pow10(k as int - i as int + 1) == 10 * pow10(k as int - i as int));
        }
        let c = s.get_char(k);
        let d = (c as u32 - 48) as u64;
        val = val * 10 + d;
        k = k + 1;
    }
    proof {
        lemma_pow10_mono(j as int - i as int, 18);
        reveal_with_fuel(pow10, 19);
    }
    Some((val, j))
}

/// Decodes a canonical integer at `i`.
pub fn parse_int(s: &str, i: usize) -> (r: Option<(i64, usize)>)
    requires
        i <= s@.len(),
    ensures
        inum_view(r) == spec_parse_int(s@, i as int),
        r matches Some((v, j)) ==> i < j <= s@.len() && int_wf(v as int),
{
    let len = s.unicode_len();
    if i < len && s.get_char(i) == '-' {
        match parse_nat(s, i + 1) {
            Some((v, j)) => {
                if v == 0 {
                    None
                } else {
                    Some((-(v as i64), j))
                }
            }
            None => None,
        }
    } else {
        match parse_nat(s, i) {
            Some((v, j)) => Some((v as i64, j)),
            None => None,
        }
    }
}

/// Decodes the body of a quoted string just after the opening quote.
fn parse_strbody(s: &str, i: usize) -> (r: Option<(String, usize)>)
    requires
        i <= s@.len(),
    ensures
        strpos_view(r) == spec_parse_strbody(s@, i as int),
        r matches Some((t, j)) ==> i < j <= s@.len(),
    decreases s@.len() - i@,
{
    let len = s.unicode_len();
    if i >= len {
        return None;
    }
    let c = s.get_char(i);
    if c == '"' {
        return Some((String::new(), i + 1));
    }
    if c == '\\' {
        if i + 1 < len {
            let d = s.get_char(i + 1);
            if d == '"' || d == '\\' {
                match parse_strbody(s, i + 2) {
                    Some((t, j)) => {
                        let mut h = String::new();
                        push_char(&mut h, d);
                        h.append(t.as_str());
                        proof {
                            assert(h@ =~= seq![s@[i as int + 1]] + t@);
                        }
                        return Some((h, j));
                    }
                    None => {
                        return None;
                    }
                }
            }
        }
        return None;
    }
    if (c as u32) < 32 {
        return None;
    }
    match parse_strbody(s, i + 1) {
        Some((t, j)) => {
            let mut h = String::new();
            push_char(&mut h, c);
            h.append(t.as_str());
            proof {
                assert(h@ =~= seq![s@[i as int]] + t@);
            }
            Some((h, j))
        }
        None => None,
    }
}

/// Decodes a quoted string at `i`.
pub fn parse_string(s: &str, i: usize) -> (r: Option<(String, usize)>)
    requires
        i <= s@.len(),
    ensures
        strpos_view(r) == spec_parse_string(s@, i as int),
        r matches Some((t, j)) ==> i < j <= s@.len(),
{
    let len = s.unicode_len();
    if i < len && s.get_char(i) == '"' {
        parse_strbody(s, i + 1)
    } else {
        None
    }
}

/// Character-for-character string equality.
pub fn str_eq(a: &str, b: &str) -> (r: bool)
    ensures
        r == (a@ == b@),
{
    let la = a.unicode_len();
    let lb = b.unicode_len();
    if la != lb {
        return false;
    }
    let mut k: usize = 0;
    while k < la
        invariant
            0 <= k <= la,
            la == a@.len(),
            la == b@.len(),
            forall|m: int| 0 <= m < k ==> a@[m] == b@[m],
        decreases la - k,
    {
        if a.get_char(k) != b.get_char(k) {
            return false;
        }
        k = k + 1;
    }
    proof {
        assert(a@ =~= b@);
    }
    true
}

/// Checks that the literal `l` stands at `i`.
pub fn parse_lit(s: &str, i: usize, l: &str) -> (r: Option<usize>)
    requires
        i <= s@.len(),
    ensures
        pos_view(r) == spec_parse_lit(s@, i as int, l@),
        r matches Some(j) ==> i <= j <= s@.len() && j == i + l@.len(),
{
    let len = s.unicode_len();
    let llen = l.unicode_len();
    if llen > len - i {
        proof {
            assert(spec_parse_lit(s@, i as int, l@) is None);
        }
        return None;
    }
    let mut k: usize = 0;
    while k < llen
        invariant
            0 <= k <= llen,
            llen == l@.len(),
            len == s@.len(),
            i + llen <= len,
            forall|m: int| 0 <= m < k ==> s@[i + m] == l@[m],
        decreases llen - k,
    {
        if s.get_char(i + k) != l.get_char(k) {
            proof {
                assert(s@.subrange(i as int, i + l@.len()) != l@) by {
                    assert(s@.subrange(i as int, i + l@.len())[k as int] != l@[k as int]);
                }
            }
            return None;
        }
        k = k + 1;
    }
    proof {
        assert(s@.subrange(i as int, i + l@.len()) =~= l@);
    }
    Some(i + llen)
}

} // verus!
