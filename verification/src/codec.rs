//! The plain-text content format: serializers and parsers for element,
//! descriptor and layout files, with a proved round-trip.
//!
//! A file is a sequence of tokens, each followed by a single space: integers
//! (optional `-`, then decimal digits), names (double-quoted, any characters
//! but `"`), and lowercase keywords. Lists are length-prefixed. Parsing a
//! serialized value yields the value back exactly.

use vstd::prelude::*;
use vstd::string::*;

use crate::geometry::{color_ok, scalar_ok, transform_ok, Color, Quat, Transform, Vec3, SCALAR_BOUND};
use crate::chunk_assets::{descriptor_v_ok, element_v_ok, entry_v_ok, layout_ids_sorted,
    markers_view, ChunkElementAsset, ChunkElementShapeAsset, ChunkDescriptorAsset,
    ChunkEntryAsset, ChunkLayoutAsset, ChunkMarker,
    layout_v_ok, marker_v_ok, shape_v_ok, valid_name, DescriptorV, ElementV, EntryV, LayoutV,
    MarkerV, ReplaceSensorV, ShapeV};
use crate::chunk::{ChunkId, ChunkLight, MoveChunkSensorChunk, ReplaceAssetSensorChunk,
    SwapSensorChunk};

verus! {

/// Whether `c` is a decimal digit.
pub open spec fn is_digit(c: char) -> bool {
    48 <= c as u32 <= 57
}

/// The value of a digit character.
pub open spec fn digit_val(c: char) -> int {
    c as u32 - 48
}

/// The digit character for a value in 0..=9.
pub open spec fn char_of_digit(d: int) -> char {
    if d == 0 {
        '0'
    } else if d == 1 {
        '1'
    } else if d == 2 {
        '2'
    } else if d == 3 {
        '3'
    } else if d == 4 {
        '4'
    } else if d == 5 {
        '5'
    } else if d == 6 {
        '6'
    } else if d == 7 {
        '7'
    } else if d == 8 {
        '8'
    } else {
        '9'
    }
}

/// Whether every character of `s` is a digit.
pub open spec fn all_digits(s: Seq<char>) -> bool {
    forall|i: int| 0 <= i < s.len() ==> is_digit(#[trigger] s[i])
}

/// The number a digit string denotes, most significant digit first.
pub open spec fn digits_val(s: Seq<char>) -> int
    decreases s.len(),
{
    if s.len() == 0 {
        0
    } else {
        digits_val(s.drop_last()) * 10 + digit_val(s.last())
    }
}

/// The canonical decimal digits of a nonnegative number.
pub open spec fn spec_print_uint(n: int) -> Seq<char>
    decreases n,
{
    if n < 10 {
        seq![char_of_digit(n)]
    } else {
        spec_print_uint(n / 10).push(char_of_digit(n % 10))
    }
}

/// The canonical decimal form of an integer: a minus sign for negatives,
/// then the digits of its magnitude.
pub open spec fn spec_print_int(n: int) -> Seq<char> {
    if n < 0 {
        seq!['-'] + spec_print_uint(-n)
    } else {
        spec_print_uint(n)
    }
}

/// An integer token: its decimal form plus the single-space terminator.
pub open spec fn spec_ser_int(n: int) -> Seq<char> {
    spec_print_int(n) + seq![' ']
}

/// The printed digits of `n >= 0` are digits, at least one, and denote `n`.
pub proof fn lemma_print_uint(n: int)
    requires
        n >= 0,
    ensures
        all_digits(spec_print_uint(n)),
        spec_print_uint(n).len() >= 1,
        digits_val(spec_print_uint(n)) == n,
    decreases n,
{
    if n < 10 {
        assert(spec_print_uint(n) == seq![char_of_digit(n)]);
        assert(spec_print_uint(n).drop_last() =~= Seq::<char>::empty());
        assert(digits_val(Seq::<char>::empty()) == 0);
        assert(digit_val(char_of_digit(n)) == n);
        assert(digits_val(seq![char_of_digit(n)]) == digits_val(
            seq![char_of_digit(n)].drop_last(),
        ) * 10 + digit_val(char_of_digit(n)));
    } else {
        lemma_print_uint(n / 10);
        let p = spec_print_uint(n / 10);
        let w = p.push(char_of_digit(n % 10));
        assert(w.drop_last() =~= p);
        assert(w.last() == char_of_digit(n % 10));
        assert(digit_val(char_of_digit(n % 10)) == n % 10);
        assert(digits_val(w) == digits_val(p) * 10 + n % 10);
        assert(forall|i: int| 0 <= i < w.len() - 1 ==> w[i] == p[i]);
        assert(all_digits(w));
    }
}

/// First position at or after `i` that does not hold a digit.
pub open spec fn digits_end(s: Seq<char>, i: int) -> int
    decreases s.len() - i,
    when 0 <= i <= s.len()
{
    if i < s.len() && is_digit(s[i]) {
        digits_end(s, i + 1)
    } else {
        i
    }
}

/// `digits_end` finds exactly the end of the digit run starting at `i`.
pub proof fn lemma_digits_end(s: Seq<char>, i: int, e: int)
    requires
        0 <= i <= e <= s.len(),
        forall|k: int| i <= k < e ==> is_digit(#[trigger] s[k]),
        e == s.len() || !is_digit(s[e]),
    ensures
        digits_end(s, i) == e,
    decreases e - i,
{
    if i < e {
        lemma_digits_end(s, i + 1, e);
    }
}

/// An unsigned integer token read from position `i`: the value of the digit
/// run and the position after the terminating space.
pub open spec fn spec_parse_uint(s: Seq<char>, i: int) -> Option<(int, int)> {
    let e = digits_end(s, i);
    if e == i {
        None
    } else if e < s.len() && s[e] == ' ' {
        Some((digits_val(s.subrange(i, e)), e + 1))
    } else {
        None
    }
}

/// An integer token read from position `i`.
pub open spec fn spec_parse_int_tok(s: Seq<char>, i: int) -> Option<(int, int)> {
    if 0 <= i < s.len() && s[i] == '-' {
        match spec_parse_uint(s, i + 1) {
            Some((v, j)) => Some((-v, j)),
            None => None,
        }
    } else {
        spec_parse_uint(s, i)
    }
}

/// An integer field: an integer token whose value lies in `[lo, hi]`.
pub open spec fn spec_parse_int_field(s: Seq<char>, i: int, lo: int, hi: int) -> Option<
    (int, int),
> {
    match spec_parse_int_tok(s, i) {
        Some((v, j)) => if lo <= v <= hi {
            Some((v, j))
        } else {
            None
        },
        None => None,
    }
}

/// Round trip of one integer token: parsing right after `pre` in
/// `pre + spec_ser_int(n) + post` yields `n` and the position after the
/// token's space.
pub proof fn lemma_rt_int(pre: Seq<char>, n: int, post: Seq<char>, lo: int, hi: int)
    requires
        lo <= n <= hi,
    ensures
        spec_parse_int_field(pre + spec_ser_int(n) + post, pre.len() as int, lo, hi) == Some(
            (n, pre.len() + spec_ser_int(n).len() as int),
        ),
{
    let s = pre + spec_ser_int(n) + post;
    let i = pre.len() as int;
    if n < 0 {
        lemma_print_uint(-n);
        let d = spec_print_uint(-n);
        assert(s[i] == '-');
        let e = i + 1 + d.len();
        assert(forall|k: int| i + 1 <= k < e ==> is_digit(#[trigger] s[k]) && s[k] == d[k - i - 1]);
        assert(s[e] == ' ');
        lemma_digits_end(s, i + 1, e);
        assert(s.subrange(i + 1, e) =~= d);
        assert(spec_parse_uint(s, i + 1) == Some((-n, e + 1)));
        assert(e + 1 == pre.len() + spec_ser_int(n).len());
    } else {
        lemma_print_uint(n);
        let d = spec_print_uint(n);
        assert(forall|k: int| i <= k < i + d.len() ==> is_digit(#[trigger] s[k]) && s[k] == d[k - i]);
        let e = i + d.len();
        assert(is_digit(s[i]));
        assert(s[i] != '-');
        assert(s[e] == ' ');
        lemma_digits_end(s, i, e);
        assert(s.subrange(i, e) =~= d);
        assert(spec_parse_uint(s, i) == Some((n, e + 1)));
        assert(e + 1 == pre.len() + spec_ser_int(n).len());
    }
}

} // verus!

verus! {

/// First position at or after `i` holding a double quote (or the end).
pub open spec fn quote_end(s: Seq<char>, i: int) -> int
    decreases s.len() - i,
    when 0 <= i <= s.len()
{
    if i < s.len() && s[i] != '"' {
        quote_end(s, i + 1)
    } else {
        i
    }
}

/// `quote_end` finds exactly the next quote.
pub proof fn lemma_quote_end(s: Seq<char>, i: int, e: int)
    requires
        0 <= i <= e <= s.len(),
        forall|k: int| i <= k < e ==> #[trigger] s[k] != '"',
        e == s.len() || s[e] == '"',
    ensures
        quote_end(s, i) == e,
    decreases e - i,
{
    if i < e {
        lemma_quote_end(s, i + 1, e);
    }
}

/// A name token: quote, the name's characters, quote, space.
pub open spec fn spec_ser_name(name: Seq<char>) -> Seq<char> {
    seq!['"'] + name + seq!['"', ' ']
}

/// A name token read from position `i`: the characters between the quotes,
/// and the position after the closing quote's space.
pub open spec fn spec_parse_name(s: Seq<char>, i: int) -> Option<(Seq<char>, int)> {
    if 0 <= i < s.len() && s[i] == '"' {
        let e = quote_end(s, i + 1);
        if e + 1 < s.len() && s[e + 1] == ' ' {
            Some((s.subrange(i + 1, e), e + 2))
        } else {
            None
        }
    } else {
        None
    }
}

/// Round trip of one name token.
pub proof fn lemma_rt_name(pre: Seq<char>, name: Seq<char>, post: Seq<char>)
    requires
        crate::chunk_assets::valid_name(name),
    ensures
        spec_parse_name(pre + spec_ser_name(name) + post, pre.len() as int) == Some(
            (name, pre.len() + spec_ser_name(name).len() as int),
        ),
{
    let s = pre + spec_ser_name(name) + post;
    let i = pre.len() as int;
    assert(s[i] == '"');
    let e = i + 1 + name.len();
    assert(forall|k: int| i + 1 <= k < e ==> s[k] == name[k - i - 1]);
    assert(forall|k: int| i + 1 <= k < e ==> #[trigger] s[k] != '"');
    assert(s[e] == '"');
    lemma_quote_end(s, i + 1, e);
    assert(s[e + 1] == ' ');
    assert(s.subrange(i + 1, e) =~= name);
}

/// First position at or after `i` holding a space (or the end).
pub open spec fn space_end(s: Seq<char>, i: int) -> int
    decreases s.len() - i,
    when 0 <= i <= s.len()
{
    if i < s.len() && s[i] != ' ' {
        space_end(s, i + 1)
    } else {
        i
    }
}

/// `space_end` finds exactly the next space.
pub proof fn lemma_space_end(s: Seq<char>, i: int, e: int)
    requires
        0 <= i <= e <= s.len(),
        forall|k: int| i <= k < e ==> #[trigger] s[k] != ' ',
        e == s.len() || s[e] == ' ',
    ensures
        space_end(s, i) == e,
    decreases e - i,
{
    if i < e {
        lemma_space_end(s, i + 1, e);
    }
}

/// A keyword token: the word plus the single-space terminator.
pub open spec fn spec_ser_word(w: Seq<char>) -> Seq<char> {
    w + seq![' ']
}

/// A word read from position `i`: the characters up to the next space, and
/// the position after that space.
pub open spec fn spec_parse_word(s: Seq<char>, i: int) -> Option<(Seq<char>, int)> {
    if 0 <= i <= s.len() {
        let e = space_end(s, i);
        if e < s.len() {
            Some((s.subrange(i, e), e + 1))
        } else {
            None
        }
    } else {
        None
    }
}

/// Round trip of one keyword token, for a word without spaces.
pub proof fn lemma_rt_word(pre: Seq<char>, w: Seq<char>, post: Seq<char>)
    requires
        forall|k: int| 0 <= k < w.len() ==> #[trigger] w[k] != ' ',
    ensures
        spec_parse_word(pre + spec_ser_word(w) + post, pre.len() as int) == Some(
            (w, pre.len() + spec_ser_word(w).len() as int),
        ),
{
    let s = pre + spec_ser_word(w) + post;
    let i = pre.len() as int;
    let e = i + w.len();
    assert(forall|k: int| i <= k < e ==> s[k] == w[k - i]);
    assert(forall|k: int| i <= k < e ==> #[trigger] s[k] != ' ');
    assert(s[e] == ' ');
    lemma_space_end(s, i, e);
    assert(s.subrange(i, e) =~= w);
}

} // verus!

verus! {

/// Digit test on a character.
fn is_digit_exec(c: char) -> (r: bool)
    ensures
        r == is_digit(c),
{
    let u = c as u32;
    48 <= u && u <= 57
}

/// The value of a digit character.
fn digit_of_exec(c: char) -> (r: u64)
    requires
        is_digit(c),
    ensures
        r as int == digit_val(c),
{
    (c as u32 - 48) as u64
}

/// The one-character string for a digit value.
fn digit_str(d: u64) -> (r: &'static str)
    requires
        d < 10,
    ensures
        r@ == seq![char_of_digit(d as int)],
{
    let s: &'static str = if d == 0 {
        "0"
    } else if d == 1 {
        "1"
    } else if d == 2 {
        "2"
    } else if d == 3 {
        "3"
    } else if d == 4 {
        "4"
    } else if d == 5 {
        "5"
    } else if d == 6 {
        "6"
    } else if d == 7 {
        "7"
    } else if d == 8 {
        "8"
    } else {
        "9"
    };
    proof {
        reveal_strlit("0");
        reveal_strlit("1");
        reveal_strlit("2");
        reveal_strlit("3");
        reveal_strlit("4");
        reveal_strlit("5");
        reveal_strlit("6");
        reveal_strlit("7");
        reveal_strlit("8");
        reveal_strlit("9");
        assert(s@ =~= seq![char_of_digit(d as int)]);
    }
    s
}

/// Appends the decimal digits of `n` to `out`.
fn write_uint(out: &mut String, n: u64)
    ensures
        final(out)@ == old(out)@ + spec_print_uint(n as int),
    decreases n,
{
    if n >= 10 {
        write_uint(out, n / 10);
        out.append(digit_str(n % 10));
        proof {
            assert(final(out)@ =~= old(out)@ + spec_print_uint(n as int));
        }
    } else {
        out.append(digit_str(n));
        proof {
            assert(final(out)@ =~= old(out)@ + spec_print_uint(n as int));
        }
    }
}

/// Appends one integer token (decimal form and terminating space) to `out`.
pub fn write_int_tok(out: &mut String, n: i64)
    requires
        n > i64::MIN,
    ensures
        final(out)@ == old(out)@ + spec_ser_int(n as int),
{
    proof {
        reveal_strlit("-");
        reveal_strlit(" ");
    }
    if n < 0 {
        out.append("-");
        write_uint(out, (-n) as u64);
    } else {
        write_uint(out, n as u64);
    }
    out.append(" ");
    proof {
        assert(final(out)@ =~= old(out)@ + spec_ser_int(n as int));
    }
}

/// Appends one name token (the name in double quotes, and the terminating
/// space) to `out`.
pub fn write_name_tok(out: &mut String, name: &str)
    ensures
        final(out)@ == old(out)@ + spec_ser_name(name@),
{
    proof {
        reveal_strlit("\"");
        reveal_strlit("\" ");
    }
    out.append("\"");
    out.append(name);
    out.append("\" ");
    proof {
        assert(final(out)@ =~= old(out)@ + spec_ser_name(name@));
    }
}

/// Appends one keyword token (the word and the terminating space) to `out`.
pub fn write_word_tok(out: &mut String, w: &str)
    ensures
        final(out)@ == old(out)@ + spec_ser_word(w@),
{
    proof {
        reveal_strlit(" ");
    }
    out.append(w);
    out.append(" ");
    proof {
        assert(final(out)@ =~= old(out)@ + spec_ser_word(w@));
    }
}

/// Reads one integer field at `i`: an optional minus sign, a digit run, the
/// terminating space, with the value within `[lo, hi]`.
#[verifier::loop_isolation(false)]
pub fn read_int_field(s: &str, i: usize, lo: i64, hi: i64) -> (r: Option<(i64, usize)>)
    requires
        lo > i64::MIN,
        i <= s@.len(),
    ensures
        match r {
            Some((v, j)) => spec_parse_int_field(s@, i as int, lo as int, hi as int) == Some(
                (v as int, j as int),
            ) && i < j <= s@.len(),
            None => spec_parse_int_field(s@, i as int, lo as int, hi as int) is None,
        },
{
    let n = s.unicode_len();
    let neg = i < n && s.get_char(i) == '-';
    let p = if neg {
        i + 1
    } else {
        i
    };
    let mut j = p;
    let mut acc: u64 = 0;
    let mut too_big = false;
    while j < n && is_digit_exec(s.get_char(j))
        invariant
            p <= j <= n,
            forall|k: int| p <= k < j ==> is_digit(#[trigger] s@[k]),
            !too_big ==> acc as int == digits_val(s@.subrange(p as int, j as int)) && acc
                <= i64::MAX as u64,
            too_big ==> digits_val(s@.subrange(p as int, j as int)) > i64::MAX as int,
        decreases n - j,
    {
        let d = digit_of_exec(s.get_char(j));
        proof {
            assert(s@.subrange(p as int, j as int + 1).drop_last() =~= s@.subrange(
                p as int,
                j as int,
            ));
            assert(s@.subrange(p as int, j as int + 1).last() == s@[j as int]);
        }
        if too_big {
        } else if acc > 922337203685477580u64 || (acc == 922337203685477580u64 && d > 7) {
            too_big = true;
            proof {
                assert(digits_val(s@.subrange(p as int, j as int + 1)) == acc as int * 10
                    + d as int);
            }
        } else {
            acc = acc * 10 + d;
        }
        j += 1;
    }
    proof {
        lemma_digits_end(s@, p as int, j as int);
    }
    if j == p {
        return None;
    }
    if j < n && s.get_char(j) == ' ' {
        if too_big {
            return None;
        }
        if neg {
            let v = -(acc as i64);
            if lo <= v && v <= hi {
                Some((v, j + 1))
            } else {
                None
            }
        } else {
            let v = acc as i64;
            if lo <= v && v <= hi {
                Some((v, j + 1))
            } else {
                None
            }
        }
    } else {
        None
    }
}

/// Reads one name field at `i`: an opening quote, the name's characters, a
/// closing quote and the terminating space.
#[verifier::loop_isolation(false)]
pub fn read_name_tok(s: &str, i: usize) -> (r: Option<(String, usize)>)
    requires
        i <= s@.len(),
    ensures
        match r {
            Some((nm, j)) => spec_parse_name(s@, i as int) == Some((nm@, j as int)) && i < j
                <= s@.len(),
            None => spec_parse_name(s@, i as int) is None,
        },
{
    let n = s.unicode_len();
    if i >= n || s.get_char(i) != '"' {
        return None;
    }
    let mut e = i + 1;
    while e < n && s.get_char(e) != '"'
        invariant
            i + 1 <= e <= n,
            forall|k: int| i + 1 <= k < e ==> #[trigger] s@[k] != '"',
        decreases n - e,
    {
        e += 1;
    }
    proof {
        lemma_quote_end(s@, i as int + 1, e as int);
    }
    if e >= n {
        return None;
    }
    if e + 1 < n && s.get_char(e + 1) == ' ' {
        let nm = s.substring_char(i + 1, e).to_owned();
        Some((nm, e + 2))
    } else {
        None
    }
}

/// Reads one word at `i`: the characters up to the next space, and consumes
/// that space.
#[verifier::loop_isolation(false)]
pub fn read_word_tok<'a>(s: &'a str, i: usize) -> (r: Option<(&'a str, usize)>)
    requires
        i <= s@.len(),
    ensures
        match r {
            Some((w, j)) => spec_parse_word(s@, i as int) == Some((w@, j as int)) && i < j
                <= s@.len(),
            None => spec_parse_word(s@, i as int) is None,
        },
{
    let n = s.unicode_len();
    let mut e = i;
    while e < n && s.get_char(e) != ' '
        invariant
            i <= e <= n,
            forall|k: int| i <= k < e ==> #[trigger] s@[k] != ' ',
        decreases n - e,
    {
        e += 1;
    }
    proof {
        lemma_space_end(s@, i as int, e as int);
    }
    if e < n {
        let w = s.substring_char(i, e);
        Some((w, e + 1))
    } else {
        None
    }
}

/// Character-for-character string equality.
#[verifier::loop_isolation(false)]
pub fn str_eq(a: &str, b: &str) -> (r: bool)
    ensures
        r == (a@ == b@),
{
    let n = a.unicode_len();
    let m = b.unicode_len();
    if n != m {
        return false;
    }
    let mut i: usize = 0;
    while i < n
        invariant
            0 <= i <= n,
            n == a@.len() == b@.len(),
            forall|k: int| 0 <= k < i ==> a@[k] == b@[k],
        decreases n - i,
    {
        if a.get_char(i) != b.get_char(i) {
            return false;
        }
        i += 1;
    }
    proof {
        assert(a@ =~= b@);
    }
    true
}

} // verus!

verus! {

/// A run of integer fields, each within the scalar bound.
pub open spec fn spec_ser_scalars(vs: Seq<int>) -> Seq<char>
    decreases vs.len(),
{
    if vs.len() == 0 {
        Seq::empty()
    } else {
        spec_ser_int(vs[0]) + spec_ser_scalars(vs.drop_first())
    }
}

/// Reads `n` integer fields, each within the scalar bound.
pub open spec fn spec_parse_scalars(s: Seq<char>, i: int, n: int) -> Option<(Seq<int>, int)>
    decreases n,
{
    if n <= 0 {
        Some((Seq::empty(), i))
    } else {
        match spec_parse_int_field(s, i, -SCALAR_BOUND as int, SCALAR_BOUND as int) {
            Some((v, j)) => match spec_parse_scalars(s, j, n - 1) {
                Some((vs, k)) => Some((seq![v] + vs, k)),
                None => None,
            },
            None => None,
        }
    }
}

/// Round trip of a run of bounded integer fields.
pub proof fn lemma_rt_scalars(pre: Seq<char>, vs: Seq<int>, post: Seq<char>)
    requires
        forall|k: int| 0 <= k < vs.len() ==> scalar_ok(#[trigger] vs[k]),
    ensures
        spec_parse_scalars(pre + spec_ser_scalars(vs) + post, pre.len() as int, vs.len() as int)
            == Some((vs, pre.len() + spec_ser_scalars(vs).len() as int)),
    decreases vs.len(),
{
    if vs.len() == 0 {
        assert(spec_ser_scalars(vs) =~= Seq::<char>::empty());
        assert(pre + spec_ser_scalars(vs) + post =~= pre + post);
    } else {
        let rest = vs.drop_first();
        let s = pre + spec_ser_scalars(vs) + post;
        assert(spec_ser_scalars(vs) == spec_ser_int(vs[0]) + spec_ser_scalars(rest));
        assert(s =~= pre + spec_ser_int(vs[0]) + (spec_ser_scalars(rest) + post));
        lemma_rt_int(pre, vs[0], spec_ser_scalars(rest) + post, -SCALAR_BOUND as int,
            SCALAR_BOUND as int);
        let pre2 = pre + spec_ser_int(vs[0]);
        assert(s =~= pre2 + spec_ser_scalars(rest) + post);
        assert(forall|k: int| 0 <= k < rest.len() ==> scalar_ok(#[trigger] rest[k]));
        lemma_rt_scalars(pre2, rest, post);
        assert(seq![vs[0]] + rest =~= vs);
    }
}

/// The ten scalar fields of a transform, in serialization order.
pub open spec fn spec_transform_fields(t: Transform) -> Seq<int> {
    seq![
        t.translation.x as int,
        t.translation.y as int,
        t.translation.z as int,
        t.rotation.x as int,
        t.rotation.y as int,
        t.rotation.z as int,
        t.rotation.w as int,
        t.scale.x as int,
        t.scale.y as int,
        t.scale.z as int,
    ]
}

/// The transform the ten scalar fields denote.
pub open spec fn spec_transform_of_fields(vs: Seq<int>) -> Transform {
    Transform {
        translation: Vec3 { x: vs[0] as i64, y: vs[1] as i64, z: vs[2] as i64 },
        rotation: Quat { x: vs[3] as i64, y: vs[4] as i64, z: vs[5] as i64, w: vs[6] as i64 },
        scale: Vec3 { x: vs[7] as i64, y: vs[8] as i64, z: vs[9] as i64 },
    }
}

/// A transform: its ten scalars as integer fields.
pub open spec fn spec_ser_transform(t: Transform) -> Seq<char> {
    spec_ser_scalars(spec_transform_fields(t))
}

/// Reads a transform.
pub open spec fn spec_parse_transform(s: Seq<char>, i: int) -> Option<(Transform, int)> {
    match spec_parse_scalars(s, i, 10) {
        Some((vs, j)) => Some((spec_transform_of_fields(vs), j)),
        None => None,
    }
}

/// Round trip of a transform.
pub proof fn lemma_rt_transform(pre: Seq<char>, t: Transform, post: Seq<char>)
    requires
        transform_ok(t),
    ensures
        spec_parse_transform(pre + spec_ser_transform(t) + post, pre.len() as int) == Some(
            (t, pre.len() + spec_ser_transform(t).len() as int),
        ),
{
    let vs = spec_transform_fields(t);
    lemma_rt_scalars(pre, vs, post);
    assert(spec_transform_of_fields(vs) == t);
}

/// The four channel fields of a color, in serialization order.
pub open spec fn spec_color_fields(c: Color) -> Seq<int> {
    seq![c.r as int, c.g as int, c.b as int, c.a as int]
}

/// The color the four channel fields denote.
pub open spec fn spec_color_of_fields(vs: Seq<int>) -> Color {
    Color { r: vs[0] as i64, g: vs[1] as i64, b: vs[2] as i64, a: vs[3] as i64 }
}

/// A color: its four channels as integer fields.
pub open spec fn spec_ser_color(c: Color) -> Seq<char> {
    spec_ser_scalars(spec_color_fields(c))
}

/// Reads a color.
pub open spec fn spec_parse_color(s: Seq<char>, i: int) -> Option<(Color, int)> {
    match spec_parse_scalars(s, i, 4) {
        Some((vs, j)) => Some((spec_color_of_fields(vs), j)),
        None => None,
    }
}

/// Round trip of a color.
pub proof fn lemma_rt_color(pre: Seq<char>, c: Color, post: Seq<char>)
    requires
        color_ok(c),
    ensures
        spec_parse_color(pre + spec_ser_color(c) + post, pre.len() as int) == Some(
            (c, pre.len() + spec_ser_color(c).len() as int),
        ),
{
    let vs = spec_color_fields(c);
    lemma_rt_scalars(pre, vs, post);
    assert(spec_color_of_fields(vs) == c);
}

/// The integer encoding of a flag: one for set, zero for clear.
pub open spec fn bool_int(b: bool) -> int {
    if b {
        1
    } else {
        0
    }
}

/// A flag as an integer field in `[0, 1]`.
pub open spec fn spec_ser_bool(b: bool) -> Seq<char> {
    spec_ser_int(bool_int(b))
}

/// Reads a flag: an integer field in `[0, 1]`.
pub open spec fn spec_parse_bool(s: Seq<char>, i: int) -> Option<(bool, int)> {
    match spec_parse_int_field(s, i, 0, 1) {
        Some((v, j)) => Some((v == 1, j)),
        None => None,
    }
}

/// Round trip of a flag.
pub proof fn lemma_rt_bool(pre: Seq<char>, b: bool, post: Seq<char>)
    ensures
        spec_parse_bool(pre + spec_ser_bool(b) + post, pre.len() as int) == Some(
            (b, pre.len() + spec_ser_bool(b).len() as int),
        ),
{
    lemma_rt_int(pre, bool_int(b), post, 0, 1);
}

} // verus!

verus! {

/// A shape: its kind keyword, then its dimension or model path.
pub open spec fn spec_ser_shape(sh: ShapeV) -> Seq<char> {
    match sh {
        ShapeV::Plane { size } => spec_ser_word("plane"@) + spec_ser_int(size as int),
        ShapeV::Cube { length } => spec_ser_word("cube"@) + spec_ser_int(length as int),
        ShapeV::Sphere { radius } => spec_ser_word("sphere"@) + spec_ser_int(radius as int),
        ShapeV::Gltf { mesh_path } => spec_ser_word("model"@) + spec_ser_name(mesh_path),
    }
}

/// Reads a shape: a kind keyword, then its dimension or model path.
pub open spec fn spec_parse_shape(s: Seq<char>, i: int) -> Option<(ShapeV, int)> {
    match spec_parse_word(s, i) {
        Some((w, j)) => if w == "plane"@ {
            match spec_parse_int_field(s, j, -SCALAR_BOUND as int, SCALAR_BOUND as int) {
                Some((v, k)) => Some((ShapeV::Plane { size: v as i64 }, k)),
                None => None,
            }
        } else if w == "cube"@ {
            match spec_parse_int_field(s, j, -SCALAR_BOUND as int, SCALAR_BOUND as int) {
                Some((v, k)) => Some((ShapeV::Cube { length: v as i64 }, k)),
                None => None,
            }
        } else if w == "sphere"@ {
            match spec_parse_int_field(s, j, -SCALAR_BOUND as int, SCALAR_BOUND as int) {
                Some((v, k)) => Some((ShapeV::Sphere { radius: v as i64 }, k)),
                None => None,
            }
        } else if w == "model"@ {
            match spec_parse_name(s, j) {
                Some((nm, k)) => Some((ShapeV::Gltf { mesh_path: nm }, k)),
                None => None,
            }
        } else {
            None
        },
        None => None,
    }
}

/// The shape keywords hold no space and differ from one another.
pub proof fn lemma_shape_keywords()
    ensures
        forall|k: int| 0 <= k < "plane"@.len() ==> #[trigger] "plane"@[k] != ' ',
        forall|k: int| 0 <= k < "cube"@.len() ==> #[trigger] "cube"@[k] != ' ',
        forall|k: int| 0 <= k < "sphere"@.len() ==> #[trigger] "sphere"@[k] != ' ',
        forall|k: int| 0 <= k < "model"@.len() ==> #[trigger] "model"@[k] != ' ',
        "plane"@ != "cube"@,
        "plane"@ != "sphere"@,
        "plane"@ != "model"@,
        "cube"@ != "sphere"@,
        "cube"@ != "model"@,
        "sphere"@ != "model"@,
{
    reveal_strlit("plane");
    reveal_strlit("cube");
    reveal_strlit("sphere");
    reveal_strlit("model");
    assert("plane"@[0] == 'p' && "model"@[0] == 'm');
    assert("plane"@.len() == 5 && "cube"@.len() == 4 && "sphere"@.len() == 6 && "model"@.len()
        == 5);
}

/// Round trip of a shape.
#[verifier::rlimit(60)]
pub proof fn lemma_rt_shape(pre: Seq<char>, sh: ShapeV, post: Seq<char>)
    requires
        shape_v_ok(sh),
    ensures
        spec_parse_shape(pre + spec_ser_shape(sh) + post, pre.len() as int) == Some(
            (sh, pre.len() + spec_ser_shape(sh).len() as int),
        ),
{
    lemma_shape_keywords();
    let s = pre + spec_ser_shape(sh) + post;
    match sh {
        ShapeV::Plane { size } => {
            assert(s =~= pre + spec_ser_word("plane"@) + (spec_ser_int(size as int) + post));
            lemma_rt_word(pre, "plane"@, spec_ser_int(size as int) + post);
            let pre2 = pre + spec_ser_word("plane"@);
            assert(s =~= pre2 + spec_ser_int(size as int) + post);
            lemma_rt_int(pre2, size as int, post, -SCALAR_BOUND as int, SCALAR_BOUND as int);
        },
        ShapeV::Cube { length } => {
            assert(s =~= pre + spec_ser_word("cube"@) + (spec_ser_int(length as int) + post));
            lemma_rt_word(pre, "cube"@, spec_ser_int(length as int) + post);
            let pre2 = pre + spec_ser_word("cube"@);
            assert(s =~= pre2 + spec_ser_int(length as int) + post);
            lemma_rt_int(pre2, length as int, post, -SCALAR_BOUND as int, SCALAR_BOUND as int);
        },
        ShapeV::Sphere { radius } => {
            assert(s =~= pre + spec_ser_word("sphere"@) + (spec_ser_int(radius as int) + post));
            lemma_rt_word(pre, "sphere"@, spec_ser_int(radius as int) + post);
            let pre2 = pre + spec_ser_word("sphere"@);
            assert(s =~= pre2 + spec_ser_int(radius as int) + post);
            lemma_rt_int(pre2, radius as int, post, -SCALAR_BOUND as int, SCALAR_BOUND as int);
        },
        ShapeV::Gltf { mesh_path } => {
            assert(s =~= pre + spec_ser_word("model"@) + (spec_ser_name(mesh_path) + post));
            lemma_rt_word(pre, "model"@, spec_ser_name(mesh_path) + post);
            let pre2 = pre + spec_ser_word("model"@);
            assert(s =~= pre2 + spec_ser_name(mesh_path) + post);
            lemma_rt_name(pre2, mesh_path, post);
        },
    }
}

} // verus!

verus! {

/// A marker: its kind keyword, then its payload fields.
pub open spec fn spec_ser_marker(m: MarkerV) -> Seq<char> {
    match m {
        MarkerV::PlayerSpawn(t) => spec_ser_word("spawn"@) + spec_ser_transform(t),
        MarkerV::Light(l) => spec_ser_word("light"@) + spec_ser_transform(l.transform)
            + spec_ser_int(l.intensity as int) + spec_ser_color(l.color) + spec_ser_int(
            l.range as int,
        ),
        MarkerV::SwapSensor(sw) => spec_ser_word("swap"@) + spec_ser_int(sw.chunk_a.0 as int)
            + spec_ser_int(sw.chunk_b.0 as int) + spec_ser_bool(sw.preserve_after_swap),
        MarkerV::ReplaceAssetSensor(r) => spec_ser_word("replace"@) + spec_ser_int(r.chunk as int)
            + spec_ser_name(r.descriptor) + spec_ser_bool(r.invert_after_swap),
        MarkerV::MoveChunkSensor(mv) => spec_ser_word("move"@) + spec_ser_int(mv.chunk.0 as int)
            + spec_ser_int(mv.x as int) + spec_ser_int(mv.z as int),
    }
}

/// Reads a marker.
pub open spec fn spec_parse_marker(s: Seq<char>, i: int) -> Option<(MarkerV, int)> {
    match spec_parse_word(s, i) {
        Some((w, j)) => if w == "spawn"@ {
            match spec_parse_transform(s, j) {
                Some((t, k)) => Some((MarkerV::PlayerSpawn(t), k)),
                None => None,
            }
        } else if w == "light"@ {
            match spec_parse_transform(s, j) {
                Some((t, k1)) => match spec_parse_int_field(
                    s,
                    k1,
                    -SCALAR_BOUND as int,
                    SCALAR_BOUND as int,
                ) {
                    Some((intensity, k2)) => match spec_parse_color(s, k2) {
                        Some((c, k3)) => match spec_parse_int_field(
                            s,
                            k3,
                            -SCALAR_BOUND as int,
                            SCALAR_BOUND as int,
                        ) {
                            Some((range, k4)) => Some(
                                (
                                    MarkerV::Light(
                                        ChunkLight {
                                            transform: t,
                                            intensity: intensity as i64,
                                            color: c,
                                            range: range as i64,
                                        },
                                    ),
                                    k4,
                                ),
                            ),
                            None => None,
                        },
                        None => None,
                    },
                    None => None,
                },
                None => None,
            }
        } else if w == "swap"@ {
            match spec_parse_int_field(s, j, 0, u32::MAX as int) {
                Some((a, k1)) => match spec_parse_int_field(s, k1, 0, u32::MAX as int) {
                    Some((b, k2)) => match spec_parse_bool(s, k2) {
                        Some((p, k3)) => Some(
                            (
                                MarkerV::SwapSensor(
                                    SwapSensorChunk {
                                        chunk_a: ChunkId(a as u32),
                                        chunk_b: ChunkId(b as u32),
                                        preserve_after_swap: p,
                                    },
                                ),
                                k3,
                            ),
                        ),
                        None => None,
                    },
                    None => None,
                },
                None => None,
            }
        } else if w == "replace"@ {
            match spec_parse_int_field(s, j, 0, u32::MAX as int) {
                Some((c, k1)) => match spec_parse_name(s, k1) {
                    Some((nm, k2)) => match spec_parse_bool(s, k2) {
                        Some((inv, k3)) => Some(
                            (
                                MarkerV::ReplaceAssetSensor(
                                    ReplaceSensorV {
                                        chunk: c as u32,
                                        descriptor: nm,
                                        invert_after_swap: inv,
                                    },
                                ),
                                k3,
                            ),
                        ),
                        None => None,
                    },
                    None => None,
                },
                None => None,
            }
        } else if w == "move"@ {
            match spec_parse_int_field(s, j, 0, u32::MAX as int) {
                Some((c, k1)) => match spec_parse_int_field(
                    s,
                    k1,
                    i32::MIN as int,
                    i32::MAX as int,
                ) {
                    Some((x, k2)) => match spec_parse_int_field(
                        s,
                        k2,
                        i32::MIN as int,
                        i32::MAX as int,
                    ) {
                        Some((z, k3)) => Some(
                            (
                                MarkerV::MoveChunkSensor(
                                    MoveChunkSensorChunk {
                                        chunk: ChunkId(c as u32),
                                        x: x as i32,
                                        z: z as i32,
                                    },
                                ),
                                k3,
                            ),
                        ),
                        None => None,
                    },
                    None => None,
                },
                None => None,
            }
        } else {
            None
        },
        None => None,
    }
}

/// The marker keywords hold no space and differ from one another.
pub proof fn lemma_marker_keywords()
    ensures
        forall|k: int| 0 <= k < "spawn"@.len() ==> #[trigger] "spawn"@[k] != ' ',
        forall|k: int| 0 <= k < "light"@.len() ==> #[trigger] "light"@[k] != ' ',
        forall|k: int| 0 <= k < "swap"@.len() ==> #[trigger] "swap"@[k] != ' ',
        forall|k: int| 0 <= k < "replace"@.len() ==> #[trigger] "replace"@[k] != ' ',
        forall|k: int| 0 <= k < "move"@.len() ==> #[trigger] "move"@[k] != ' ',
        "spawn"@ != "light"@ && "spawn"@ != "swap"@ && "spawn"@ != "replace"@ && "spawn"@
            != "move"@,
        "light"@ != "swap"@ && "light"@ != "replace"@ && "light"@ != "move"@,
        "swap"@ != "replace"@ && "swap"@ != "move"@,
        "replace"@ != "move"@,
{
    reveal_strlit("spawn");
    reveal_strlit("light");
    reveal_strlit("swap");
    reveal_strlit("replace");
    reveal_strlit("move");
    assert("spawn"@.len() == 5 && "light"@.len() == 5 && "swap"@.len() == 4 && "replace"@.len()
        == 7 && "move"@.len() == 4);
    assert("spawn"@[0] == 's' && "light"@[0] == 'l' && "swap"@[0] == 's' && "move"@[0] == 'm');
    assert("spawn"@[1] == 'p' && "swap"@[1] == 'w');
}

/// Round trip of a player-spawn marker.
proof fn lemma_rt_marker_spawn(pre: Seq<char>, t: Transform, post: Seq<char>)
    requires
        transform_ok(t),
    ensures
        spec_parse_marker(pre + spec_ser_marker(MarkerV::PlayerSpawn(t)) + post, pre.len() as int)
            == Some(
            (MarkerV::PlayerSpawn(t), pre.len() + spec_ser_marker(MarkerV::PlayerSpawn(t)).len() as int),
        ),
{
    lemma_marker_keywords();
    let m = MarkerV::PlayerSpawn(t);
    let s = pre + spec_ser_marker(m) + post;
    assert(s =~= pre + spec_ser_word("spawn"@) + (spec_ser_transform(t) + post));
    lemma_rt_word(pre, "spawn"@, spec_ser_transform(t) + post);
    let pre2 = pre + spec_ser_word("spawn"@);
    assert(s =~= pre2 + spec_ser_transform(t) + post);
    lemma_rt_transform(pre2, t, post);
}

/// Round trip of a light marker.
#[verifier::rlimit(60)]
proof fn lemma_rt_marker_light(pre: Seq<char>, l: ChunkLight, post: Seq<char>)
    requires
        marker_v_ok(MarkerV::Light(l)),
    ensures
        spec_parse_marker(pre + spec_ser_marker(MarkerV::Light(l)) + post, pre.len() as int)
            == Some(
            (MarkerV::Light(l), pre.len() + spec_ser_marker(MarkerV::Light(l)).len() as int),
        ),
{
    lemma_marker_keywords();
    let m = MarkerV::Light(l);
    let s = pre + spec_ser_marker(m) + post;
    let w1 = spec_ser_transform(l.transform);
    let w2 = spec_ser_int(l.intensity as int);
    let w3 = spec_ser_color(l.color);
    let w4 = spec_ser_int(l.range as int);
    assert(s =~= pre + spec_ser_word("light"@) + (w1 + w2 + w3 + w4 + post));
    lemma_rt_word(pre, "light"@, w1 + w2 + w3 + w4 + post);
    let p1 = pre + spec_ser_word("light"@);
    assert(s =~= p1 + w1 + (w2 + w3 + w4 + post));
    lemma_rt_transform(p1, l.transform, w2 + w3 + w4 + post);
    let p2 = p1 + w1;
    assert(s =~= p2 + w2 + (w3 + w4 + post));
    lemma_rt_int(p2, l.intensity as int, w3 + w4 + post, -SCALAR_BOUND as int, SCALAR_BOUND as int);
    let p3 = p2 + w2;
    assert(s =~= p3 + w3 + (w4 + post));
    lemma_rt_color(p3, l.color, w4 + post);
    let p4 = p3 + w3;
    assert(s =~= p4 + w4 + post);
    lemma_rt_int(p4, l.range as int, post, -SCALAR_BOUND as int, SCALAR_BOUND as int);
}

/// Round trip of a swap sensor marker.
#[verifier::rlimit(60)]
proof fn lemma_rt_marker_swap(pre: Seq<char>, sw: SwapSensorChunk, post: Seq<char>)
    ensures
        spec_parse_marker(pre + spec_ser_marker(MarkerV::SwapSensor(sw)) + post, pre.len() as int)
            == Some(
            (
                MarkerV::SwapSensor(sw),
                pre.len() + spec_ser_marker(MarkerV::SwapSensor(sw)).len() as int,
            ),
        ),
{
    lemma_marker_keywords();
    let m = MarkerV::SwapSensor(sw);
    let s = pre + spec_ser_marker(m) + post;
    let w1 = spec_ser_int(sw.chunk_a.0 as int);
    let w2 = spec_ser_int(sw.chunk_b.0 as int);
    let w3 = spec_ser_bool(sw.preserve_after_swap);
    assert(s =~= pre + spec_ser_word("swap"@) + (w1 + w2 + w3 + post));
    lemma_rt_word(pre, "swap"@, w1 + w2 + w3 + post);
    let p1 = pre + spec_ser_word("swap"@);
    assert(s =~= p1 + w1 + (w2 + w3 + post));
    lemma_rt_int(p1, sw.chunk_a.0 as int, w2 + w3 + post, 0, u32::MAX as int);
    let p2 = p1 + w1;
    assert(s =~= p2 + w2 + (w3 + post));
    lemma_rt_int(p2, sw.chunk_b.0 as int, w3 + post, 0, u32::MAX as int);
    let p3 = p2 + w2;
    assert(s =~= p3 + w3 + post);
    lemma_rt_bool(p3, sw.preserve_after_swap, post);
}

/// Round trip of a replace sensor marker.
#[verifier::rlimit(60)]
proof fn lemma_rt_marker_replace(pre: Seq<char>, r: ReplaceSensorV, post: Seq<char>)
    requires
        valid_name(r.descriptor),
    ensures
        spec_parse_marker(
            pre + spec_ser_marker(MarkerV::ReplaceAssetSensor(r)) + post,
            pre.len() as int,
        ) == Some(
            (
                MarkerV::ReplaceAssetSensor(r),
                pre.len() + spec_ser_marker(MarkerV::ReplaceAssetSensor(r)).len() as int,
            ),
        ),
{
    lemma_marker_keywords();
    let m = MarkerV::ReplaceAssetSensor(r);
    let s = pre + spec_ser_marker(m) + post;
    let w1 = spec_ser_int(r.chunk as int);
    let w2 = spec_ser_name(r.descriptor);
    let w3 = spec_ser_bool(r.invert_after_swap);
    assert(s =~= pre + spec_ser_word("replace"@) + (w1 + w2 + w3 + post));
    lemma_rt_word(pre, "replace"@, w1 + w2 + w3 + post);
    let p1 = pre + spec_ser_word("replace"@);
    assert(s =~= p1 + w1 + (w2 + w3 + post));
    lemma_rt_int(p1, r.chunk as int, w2 + w3 + post, 0, u32::MAX as int);
    let p2 = p1 + w1;
    assert(s =~= p2 + w2 + (w3 + post));
    lemma_rt_name(p2, r.descriptor, w3 + post);
    let p3 = p2 + w2;
    assert(s =~= p3 + w3 + post);
    lemma_rt_bool(p3, r.invert_after_swap, post);
}

/// Round trip of a move sensor marker.
#[verifier::rlimit(60)]
proof fn lemma_rt_marker_move(pre: Seq<char>, mv: MoveChunkSensorChunk, post: Seq<char>)
    ensures
        spec_parse_marker(
            pre + spec_ser_marker(MarkerV::MoveChunkSensor(mv)) + post,
            pre.len() as int,
        ) == Some(
            (
                MarkerV::MoveChunkSensor(mv),
                pre.len() + spec_ser_marker(MarkerV::MoveChunkSensor(mv)).len() as int,
            ),
        ),
{
    lemma_marker_keywords();
    let m = MarkerV::MoveChunkSensor(mv);
    let s = pre + spec_ser_marker(m) + post;
    let w1 = spec_ser_int(mv.chunk.0 as int);
    let w2 = spec_ser_int(mv.x as int);
    let w3 = spec_ser_int(mv.z as int);
    assert(s =~= pre + spec_ser_word("move"@) + (w1 + w2 + w3 + post));
    lemma_rt_word(pre, "move"@, w1 + w2 + w3 + post);
    let p1 = pre + spec_ser_word("move"@);
    assert(s =~= p1 + w1 + (w2 + w3 + post));
    lemma_rt_int(p1, mv.chunk.0 as int, w2 + w3 + post, 0, u32::MAX as int);
    let p2 = p1 + w1;
    assert(s =~= p2 + w2 + (w3 + post));
    lemma_rt_int(p2, mv.x as int, w3 + post, i32::MIN as int, i32::MAX as int);
    let p3 = p2 + w2;
    assert(s =~= p3 + w3 + post);
    lemma_rt_int(p3, mv.z as int, post, i32::MIN as int, i32::MAX as int);
}

/// Round trip of a marker.
pub proof fn lemma_rt_marker(pre: Seq<char>, m: MarkerV, post: Seq<char>)
    requires
        marker_v_ok(m),
    ensures
        spec_parse_marker(pre + spec_ser_marker(m) + post, pre.len() as int) == Some(
            (m, pre.len() + spec_ser_marker(m).len() as int),
        ),
{
    match m {
        MarkerV::PlayerSpawn(t) => lemma_rt_marker_spawn(pre, t, post),
        MarkerV::Light(l) => lemma_rt_marker_light(pre, l, post),
        MarkerV::SwapSensor(sw) => lemma_rt_marker_swap(pre, sw, post),
        MarkerV::ReplaceAssetSensor(r) => lemma_rt_marker_replace(pre, r, post),
        MarkerV::MoveChunkSensor(mv) => lemma_rt_marker_move(pre, mv, post),
    }
}

} // verus!

verus! {

/// A run of markers.
pub open spec fn spec_ser_markers(ms: Seq<MarkerV>) -> Seq<char>
    decreases ms.len(),
{
    if ms.len() == 0 {
        Seq::empty()
    } else {
        spec_ser_marker(ms[0]) + spec_ser_markers(ms.drop_first())
    }
}

/// Reads `n` markers.
pub open spec fn spec_parse_markers(s: Seq<char>, i: int, n: int) -> Option<(Seq<MarkerV>, int)>
    decreases n,
{
    if n <= 0 {
        Some((Seq::empty(), i))
    } else {
        match spec_parse_marker(s, i) {
            Some((m, j)) => match spec_parse_markers(s, j, n - 1) {
                Some((ms, k)) => Some((seq![m] + ms, k)),
                None => None,
            },
            None => None,
        }
    }
}

/// Round trip of a run of markers.
#[verifier::rlimit(100)]
pub proof fn lemma_rt_markers(pre: Seq<char>, ms: Seq<MarkerV>, post: Seq<char>)
    requires
        forall|k: int| 0 <= k < ms.len() ==> marker_v_ok(#[trigger] ms[k]),
    ensures
        spec_parse_markers(pre + spec_ser_markers(ms) + post, pre.len() as int, ms.len() as int)
            == Some((ms, pre.len() + spec_ser_markers(ms).len() as int)),
    decreases ms.len(),
{
    if ms.len() == 0 {
        assert(spec_ser_markers(ms) =~= Seq::<char>::empty());
        assert(pre + spec_ser_markers(ms) + post =~= pre + post);
    } else {
        let rest = ms.drop_first();
        let s = pre + spec_ser_markers(ms) + post;
        assert(s =~= pre + spec_ser_marker(ms[0]) + (spec_ser_markers(rest) + post));
        lemma_rt_marker(pre, ms[0], spec_ser_markers(rest) + post);
        let pre2 = pre + spec_ser_marker(ms[0]);
        assert(s =~= pre2 + spec_ser_markers(rest) + post);
        assert(forall|k: int| 0 <= k < rest.len() ==> marker_v_ok(#[trigger] rest[k]));
        lemma_rt_markers(pre2, rest, post);
        assert(seq![ms[0]] + rest =~= ms);
    }
}

/// A run of names.
pub open spec fn spec_ser_names(ns: Seq<Seq<char>>) -> Seq<char>
    decreases ns.len(),
{
    if ns.len() == 0 {
        Seq::empty()
    } else {
        spec_ser_name(ns[0]) + spec_ser_names(ns.drop_first())
    }
}

/// Reads `n` names.
pub open spec fn spec_parse_names(s: Seq<char>, i: int, n: int) -> Option<(Seq<Seq<char>>, int)>
    decreases n,
{
    if n <= 0 {
        Some((Seq::empty(), i))
    } else {
        match spec_parse_name(s, i) {
            Some((nm, j)) => match spec_parse_names(s, j, n - 1) {
                Some((ns, k)) => Some((seq![nm] + ns, k)),
                None => None,
            },
            None => None,
        }
    }
}

/// Round trip of a run of names.
pub proof fn lemma_rt_names(pre: Seq<char>, ns: Seq<Seq<char>>, post: Seq<char>)
    requires
        forall|k: int| 0 <= k < ns.len() ==> valid_name(#[trigger] ns[k]),
    ensures
        spec_parse_names(pre + spec_ser_names(ns) + post, pre.len() as int, ns.len() as int)
            == Some((ns, pre.len() + spec_ser_names(ns).len() as int)),
    decreases ns.len(),
{
    if ns.len() == 0 {
        assert(spec_ser_names(ns) =~= Seq::<char>::empty());
        assert(pre + spec_ser_names(ns) + post =~= pre + post);
    } else {
        let rest = ns.drop_first();
        let s = pre + spec_ser_names(ns) + post;
        assert(s =~= pre + spec_ser_name(ns[0]) + (spec_ser_names(rest) + post));
        lemma_rt_name(pre, ns[0], spec_ser_names(rest) + post);
        let pre2 = pre + spec_ser_name(ns[0]);
        assert(s =~= pre2 + spec_ser_names(rest) + post);
        assert(forall|k: int| 0 <= k < rest.len() ==> valid_name(#[trigger] rest[k]));
        lemma_rt_names(pre2, rest, post);
        assert(seq![ns[0]] + rest =~= ns);
    }
}

/// One layout entry: its id, grid cell, descriptor name, and markers with
/// their count.
pub open spec fn spec_ser_entry(en: (u32, EntryV)) -> Seq<char> {
    spec_ser_int(en.0 as int) + spec_ser_int(en.1.grid_pos.0 as int) + spec_ser_int(
        en.1.grid_pos.1 as int,
    ) + spec_ser_name(en.1.descriptor) + spec_ser_int(en.1.components.len() as int)
        + spec_ser_markers(en.1.components)
}

/// Reads one layout entry.
pub open spec fn spec_parse_entry(s: Seq<char>, i: int) -> Option<((u32, EntryV), int)> {
    match spec_parse_int_field(s, i, 0, u32::MAX as int) {
        Some((id, j1)) => match spec_parse_int_field(s, j1, i32::MIN as int, i32::MAX as int) {
            Some((x, j2)) => match spec_parse_int_field(s, j2, i32::MIN as int, i32::MAX as int) {
                Some((z, j3)) => match spec_parse_name(s, j3) {
                    Some((nm, j4)) => match spec_parse_int_field(s, j4, 0, i64::MAX as int) {
                        Some((n, j5)) => match spec_parse_markers(s, j5, n) {
                            Some((ms, j6)) => Some(
                                (
                                    (
                                        id as u32,
                                        EntryV {
                                            grid_pos: (x as i32, z as i32),
                                            descriptor: nm,
                                            components: ms,
                                        },
                                    ),
                                    j6,
                                ),
                            ),
                            None => None,
                        },
                        None => None,
                    },
                    None => None,
                },
                None => None,
            },
            None => None,
        },
        None => None,
    }
}

/// The tail of an entry: descriptor name, marker count, markers.
pub open spec fn spec_ser_entry_tail(e: EntryV) -> Seq<char> {
    spec_ser_name(e.descriptor) + spec_ser_int(e.components.len() as int) + spec_ser_markers(
        e.components,
    )
}

/// Round trip of an entry's tail, read token by token from the end of `p3`.
#[verifier::rlimit(100)]
proof fn lemma_rt_entry_tail(p3: Seq<char>, e: EntryV, post: Seq<char>)
    requires
        entry_v_ok(e),
    ensures
        ({
            let s = p3 + spec_ser_entry_tail(e) + post;
            let w4 = spec_ser_name(e.descriptor);
            let w5 = spec_ser_int(e.components.len() as int);
            let w6 = spec_ser_markers(e.components);
            &&& spec_parse_name(s, p3.len() as int) == Some(
                (e.descriptor, p3.len() + w4.len() as int),
            )
            &&& spec_parse_int_field(s, p3.len() + w4.len() as int, 0, i64::MAX as int) == Some(
                (e.components.len() as int, p3.len() + w4.len() + w5.len() as int),
            )
            &&& spec_parse_markers(
                s,
                p3.len() + w4.len() + w5.len() as int,
                e.components.len() as int,
            ) == Some((e.components, p3.len() + spec_ser_entry_tail(e).len() as int))
        }),
{
    let s = p3 + spec_ser_entry_tail(e) + post;
    let w4 = spec_ser_name(e.descriptor);
    let w5 = spec_ser_int(e.components.len() as int);
    let w6 = spec_ser_markers(e.components);
    assert(s =~= p3 + w4 + (w5 + w6 + post));
    lemma_rt_name(p3, e.descriptor, w5 + w6 + post);
    let p4 = p3 + w4;
    assert(s =~= p4 + w5 + (w6 + post));
    lemma_rt_int(p4, e.components.len() as int, w6 + post, 0, i64::MAX as int);
    let p5 = p4 + w5;
    assert(s =~= p5 + w6 + post);
    lemma_rt_markers(p5, e.components, post);
}

/// The head of an entry: its id and grid cell.
pub open spec fn spec_ser_entry_head(en: (u32, EntryV)) -> Seq<char> {
    spec_ser_int(en.0 as int) + spec_ser_int(en.1.grid_pos.0 as int) + spec_ser_int(
        en.1.grid_pos.1 as int,
    )
}

/// Round trip of an entry's head, read token by token from the end of
/// `pre`.
#[verifier::rlimit(100)]
proof fn lemma_rt_entry_head(pre: Seq<char>, en: (u32, EntryV), post: Seq<char>)
    ensures
        ({
            let s = pre + spec_ser_entry_head(en) + post;
            let w1 = spec_ser_int(en.0 as int);
            let w2 = spec_ser_int(en.1.grid_pos.0 as int);
            let w3 = spec_ser_int(en.1.grid_pos.1 as int);
            &&& spec_parse_int_field(s, pre.len() as int, 0, u32::MAX as int) == Some(
                (en.0 as int, pre.len() + w1.len() as int),
            )
            &&& spec_parse_int_field(
                s,
                pre.len() + w1.len() as int,
                i32::MIN as int,
                i32::MAX as int,
            ) == Some((en.1.grid_pos.0 as int, pre.len() + w1.len() + w2.len() as int))
            &&& spec_parse_int_field(
                s,
                pre.len() + w1.len() + w2.len() as int,
                i32::MIN as int,
                i32::MAX as int,
            ) == Some(
                (en.1.grid_pos.1 as int, pre.len() + spec_ser_entry_head(en).len() as int),
            )
        }),
{
    let s = pre + spec_ser_entry_head(en) + post;
    let w1 = spec_ser_int(en.0 as int);
    let w2 = spec_ser_int(en.1.grid_pos.0 as int);
    let w3 = spec_ser_int(en.1.grid_pos.1 as int);
    assert(s =~= pre + w1 + (w2 + w3 + post));
    lemma_rt_int(pre, en.0 as int, w2 + w3 + post, 0, u32::MAX as int);
    let p1 = pre + w1;
    assert(s =~= p1 + w2 + (w3 + post));
    lemma_rt_int(p1, en.1.grid_pos.0 as int, w3 + post, i32::MIN as int, i32::MAX as int);
    let p2 = p1 + w2;
    assert(s =~= p2 + w3 + post);
    lemma_rt_int(p2, en.1.grid_pos.1 as int, post, i32::MIN as int, i32::MAX as int);
}

/// Round trip of one layout entry.
#[verifier::rlimit(100)]
#[verifier::spinoff_prover]
pub proof fn lemma_rt_entry(pre: Seq<char>, en: (u32, EntryV), post: Seq<char>)
    requires
        entry_v_ok(en.1),
    ensures
        spec_parse_entry(pre + spec_ser_entry(en) + post, pre.len() as int) == Some(
            (en, pre.len() + spec_ser_entry(en).len() as int),
        ),
{
    let s = pre + spec_ser_entry(en) + post;
    let wh = spec_ser_entry_head(en);
    let wt = spec_ser_entry_tail(en.1);
    assert(s =~= pre + wh + (wt + post));
    lemma_rt_entry_head(pre, en, wt + post);
    let p3 = pre + wh;
    assert(s =~= p3 + wt + post);
    lemma_rt_entry_tail(p3, en.1, post);
    assert(spec_ser_entry(en) =~= wh + wt);
    assert(en.1 == (EntryV {
        grid_pos: (en.1.grid_pos.0, en.1.grid_pos.1),
        descriptor: en.1.descriptor,
        components: en.1.components,
    }));
}

/// A run of layout entries.
pub open spec fn spec_ser_entries(es: Seq<(u32, EntryV)>) -> Seq<char>
    decreases es.len(),
{
    if es.len() == 0 {
        Seq::empty()
    } else {
        spec_ser_entry(es[0]) + spec_ser_entries(es.drop_first())
    }
}

/// Reads `n` layout entries.
pub open spec fn spec_parse_entries(s: Seq<char>, i: int, n: int) -> Option<
    (Seq<(u32, EntryV)>, int),
>
    decreases n,
{
    if n <= 0 {
        Some((Seq::empty(), i))
    } else {
        match spec_parse_entry(s, i) {
            Some((en, j)) => match spec_parse_entries(s, j, n - 1) {
                Some((es, k)) => Some((seq![en] + es, k)),
                None => None,
            },
            None => None,
        }
    }
}

/// Round trip of a run of layout entries.
#[verifier::rlimit(100)]
pub proof fn lemma_rt_entries(pre: Seq<char>, es: Seq<(u32, EntryV)>, post: Seq<char>)
    requires
        forall|k: int| 0 <= k < es.len() ==> entry_v_ok((#[trigger] es[k]).1),
    ensures
        spec_parse_entries(pre + spec_ser_entries(es) + post, pre.len() as int, es.len() as int)
            == Some((es, pre.len() + spec_ser_entries(es).len() as int)),
    decreases es.len(),
{
    if es.len() == 0 {
        assert(spec_ser_entries(es) =~= Seq::<char>::empty());
        assert(pre + spec_ser_entries(es) + post =~= pre + post);
    } else {
        let rest = es.drop_first();
        let s = pre + spec_ser_entries(es) + post;
        assert(s =~= pre + spec_ser_entry(es[0]) + (spec_ser_entries(rest) + post));
        lemma_rt_entry(pre, es[0], spec_ser_entries(rest) + post);
        let pre2 = pre + spec_ser_entry(es[0]);
        assert(s =~= pre2 + spec_ser_entries(rest) + post);
        assert(forall|k: int| 0 <= k < rest.len() ==> entry_v_ok((#[trigger] rest[k]).1));
        lemma_rt_entries(pre2, rest, post);
        assert(seq![es[0]] + rest =~= es);
    }
}

} // verus!

verus! {

/// An element file: the `element` keyword, then name, transform, shape,
/// color and collider flag.
pub open spec fn spec_ser_element_file(e: ElementV) -> Seq<char> {
    spec_ser_word("element"@) + spec_ser_name(e.name) + spec_ser_transform(e.transform)
        + spec_ser_shape(e.shape) + spec_ser_color(e.color) + spec_ser_bool(e.has_collider)
}

/// Reads an element record at `i`.
pub open spec fn spec_parse_element_at(s: Seq<char>, i: int) -> Option<(ElementV, int)> {
    match spec_parse_word(s, i) {
        Some((w, j0)) => if w == "element"@ {
            match spec_parse_name(s, j0) {
                Some((nm, j1)) => match spec_parse_transform(s, j1) {
                    Some((t, j2)) => match spec_parse_shape(s, j2) {
                        Some((sh, j3)) => match spec_parse_color(s, j3) {
                            Some((c, j4)) => match spec_parse_bool(s, j4) {
                                Some((hc, j5)) => Some(
                                    (
                                        ElementV {
                                            name: nm,
                                            transform: t,
                                            shape: sh,
                                            color: c,
                                            has_collider: hc,
                                        },
                                        j5,
                                    ),
                                ),
                                None => None,
                            },
                            None => None,
                        },
                        None => None,
                    },
                    None => None,
                },
                None => None,
            }
        } else {
            None
        },
        None => None,
    }
}

/// Reads a whole element file: one element record and nothing after it.
pub open spec fn spec_parse_element_file(s: Seq<char>) -> Option<ElementV> {
    match spec_parse_element_at(s, 0) {
        Some((v, j)) => if j == s.len() {
            Some(v)
        } else {
            None
        },
        None => None,
    }
}

/// The file keywords hold no space.
pub proof fn lemma_file_keywords()
    ensures
        forall|k: int| 0 <= k < "element"@.len() ==> #[trigger] "element"@[k] != ' ',
        forall|k: int| 0 <= k < "descriptor"@.len() ==> #[trigger] "descriptor"@[k] != ' ',
        forall|k: int| 0 <= k < "layout"@.len() ==> #[trigger] "layout"@[k] != ' ',
{
    reveal_strlit("element");
    reveal_strlit("descriptor");
    reveal_strlit("layout");
}

/// Serializing an element and re-parsing it yields the element back, field
/// for field.
#[verifier::rlimit(100)]
pub proof fn lemma_element_round_trip(e: ElementV)
    requires
        element_v_ok(e),
    ensures
        spec_parse_element_file(spec_ser_element_file(e)) == Some(e),
{
    lemma_file_keywords();
    let s = spec_ser_element_file(e);
    let pre = Seq::<char>::empty();
    let post = Seq::<char>::empty();
    let w0 = spec_ser_word("element"@);
    let w1 = spec_ser_name(e.name);
    let w2 = spec_ser_transform(e.transform);
    let w3 = spec_ser_shape(e.shape);
    let w4 = spec_ser_color(e.color);
    let w5 = spec_ser_bool(e.has_collider);
    assert(s =~= pre + w0 + (w1 + w2 + w3 + w4 + w5 + post));
    lemma_rt_word(pre, "element"@, w1 + w2 + w3 + w4 + w5 + post);
    let p1 = pre + w0;
    assert(s =~= p1 + w1 + (w2 + w3 + w4 + w5 + post));
    lemma_rt_name(p1, e.name, w2 + w3 + w4 + w5 + post);
    let p2 = p1 + w1;
    assert(s =~= p2 + w2 + (w3 + w4 + w5 + post));
    lemma_rt_transform(p2, e.transform, w3 + w4 + w5 + post);
    let p3 = p2 + w2;
    assert(s =~= p3 + w3 + (w4 + w5 + post));
    lemma_rt_shape(p3, e.shape, w4 + w5 + post);
    let p4 = p3 + w3;
    assert(s =~= p4 + w4 + (w5 + post));
    lemma_rt_color(p4, e.color, w5 + post);
    let p5 = p4 + w4;
    assert(s =~= p5 + w5 + post);
    lemma_rt_bool(p5, e.has_collider, post);
    assert(e == (ElementV {
        name: e.name,
        transform: e.transform,
        shape: e.shape,
        color: e.color,
        has_collider: e.has_collider,
    }));
}

/// A descriptor file: the `descriptor` keyword, its name, and its element
/// names with their count.
pub open spec fn spec_ser_descriptor_file(d: DescriptorV) -> Seq<char> {
    spec_ser_word("descriptor"@) + spec_ser_name(d.name) + spec_ser_int(d.elements.len() as int)
        + spec_ser_names(d.elements)
}

/// Reads a descriptor record at `i`.
pub open spec fn spec_parse_descriptor_at(s: Seq<char>, i: int) -> Option<(DescriptorV, int)> {
    match spec_parse_word(s, i) {
        Some((w, j0)) => if w == "descriptor"@ {
            match spec_parse_name(s, j0) {
                Some((nm, j1)) => match spec_parse_int_field(s, j1, 0, i64::MAX as int) {
                    Some((n, j2)) => match spec_parse_names(s, j2, n) {
                        Some((ns, j3)) => Some((DescriptorV { name: nm, elements: ns }, j3)),
                        None => None,
                    },
                    None => None,
                },
                None => None,
            }
        } else {
            None
        },
        None => None,
    }
}

/// Reads a whole descriptor file: one descriptor record and nothing after
/// it.
pub open spec fn spec_parse_descriptor_file(s: Seq<char>) -> Option<DescriptorV> {
    match spec_parse_descriptor_at(s, 0) {
        Some((v, j)) => if j == s.len() {
            Some(v)
        } else {
            None
        },
        None => None,
    }
}

/// Serializing a descriptor and re-parsing it yields the descriptor back:
/// the same name and the same element names in the same order.
#[verifier::rlimit(100)]
pub proof fn lemma_descriptor_round_trip(d: DescriptorV)
    requires
        descriptor_v_ok(d),
    ensures
        spec_parse_descriptor_file(spec_ser_descriptor_file(d)) == Some(d),
{
    lemma_file_keywords();
    let s = spec_ser_descriptor_file(d);
    let pre = Seq::<char>::empty();
    let post = Seq::<char>::empty();
    let w0 = spec_ser_word("descriptor"@);
    let w1 = spec_ser_name(d.name);
    let w2 = spec_ser_int(d.elements.len() as int);
    let w3 = spec_ser_names(d.elements);
    assert(s =~= pre + w0 + (w1 + w2 + w3 + post));
    lemma_rt_word(pre, "descriptor"@, w1 + w2 + w3 + post);
    let p1 = pre + w0;
    assert(s =~= p1 + w1 + (w2 + w3 + post));
    lemma_rt_name(p1, d.name, w2 + w3 + post);
    let p2 = p1 + w1;
    assert(s =~= p2 + w2 + (w3 + post));
    lemma_rt_int(p2, d.elements.len() as int, w3 + post, 0, i64::MAX as int);
    let p3 = p2 + w2;
    assert(s =~= p3 + w3 + post);
    lemma_rt_names(p3, d.elements, post);
    assert(d == (DescriptorV { name: d.name, elements: d.elements }));
}

/// A layout file: the `layout` keyword, then the entries with their count,
/// in id order.
pub open spec fn spec_ser_layout_file(l: LayoutV) -> Seq<char> {
    spec_ser_word("layout"@) + spec_ser_int(l.chunks.len() as int) + spec_ser_entries(l.chunks)
}

/// Reads a layout record at `i`; the chunk ids must strictly increase.
pub open spec fn spec_parse_layout_at(s: Seq<char>, i: int) -> Option<(LayoutV, int)> {
    match spec_parse_word(s, i) {
        Some((w, j0)) => if w == "layout"@ {
            match spec_parse_int_field(s, j0, 0, i64::MAX as int) {
                Some((n, j1)) => match spec_parse_entries(s, j1, n) {
                    Some((es, j2)) => if layout_ids_sorted(es) {
                        Some((LayoutV { chunks: es }, j2))
                    } else {
                        None
                    },
                    None => None,
                },
                None => None,
            }
        } else {
            None
        },
        None => None,
    }
}

/// Reads a whole layout file: one layout record and nothing after it.
pub open spec fn spec_parse_layout_file(s: Seq<char>) -> Option<LayoutV> {
    match spec_parse_layout_at(s, 0) {
        Some((v, j)) => if j == s.len() {
            Some(v)
        } else {
            None
        },
        None => None,
    }
}

/// Layout round trip: serializing a layout to the content format and
/// re-parsing it yields a layout with the same chunk ids and, for every id,
/// the same grid position, descriptor name and markers — the identical
/// entry sequence.
#[verifier::rlimit(100)]
pub proof fn lemma_layout_round_trip(l: LayoutV)
    requires
        layout_v_ok(l),
    ensures
        spec_parse_layout_file(spec_ser_layout_file(l)) == Some(l),
{
    lemma_file_keywords();
    let s = spec_ser_layout_file(l);
    let pre = Seq::<char>::empty();
    let post = Seq::<char>::empty();
    let w0 = spec_ser_word("layout"@);
    let w1 = spec_ser_int(l.chunks.len() as int);
    let w2 = spec_ser_entries(l.chunks);
    assert(s =~= pre + w0 + (w1 + w2 + post));
    lemma_rt_word(pre, "layout"@, w1 + w2 + post);
    let p1 = pre + w0;
    assert(s =~= p1 + w1 + (w2 + post));
    lemma_rt_int(p1, l.chunks.len() as int, w2 + post, 0, i64::MAX as int);
    let p2 = p1 + w1;
    assert(s =~= p2 + w2 + post);
    lemma_rt_entries(p2, l.chunks, post);
    assert(l == (LayoutV { chunks: l.chunks }));
}

} // verus!

verus! {

/// Appending one more scalar extends the run's serialization at its end.
pub proof fn lemma_ser_scalars_push(vs: Seq<int>, v: int)
    ensures
        spec_ser_scalars(vs.push(v)) == spec_ser_scalars(vs) + spec_ser_int(v),
    decreases vs.len(),
{
    if vs.len() == 0 {
        assert(vs.push(v)[0] == v);
        assert(vs.push(v).drop_first() =~= Seq::<int>::empty());
        assert(spec_ser_scalars(Seq::<int>::empty()) =~= Seq::<char>::empty());
        assert(spec_ser_scalars(vs.push(v)) =~= spec_ser_scalars(vs) + spec_ser_int(v));
    } else {
        assert(vs.push(v)[0] == vs[0]);
        assert(vs.push(v).drop_first() =~= vs.drop_first().push(v));
        lemma_ser_scalars_push(vs.drop_first(), v);
        assert(spec_ser_scalars(vs.push(v)) == spec_ser_int(vs[0]) + spec_ser_scalars(
            vs.drop_first().push(v),
        ));
        assert(spec_ser_scalars(vs.push(v)) =~= spec_ser_scalars(vs) + spec_ser_int(v));
    }
}

/// Appends a run of integer fields to `out`.
#[verifier::loop_isolation(false)]
fn write_scalars(out: &mut String, vs: &Vec<i64>)
    requires
        forall|k: int| 0 <= k < vs@.len() ==> scalar_ok(#[trigger] vs@[k] as int),
    ensures
        final(out)@ == old(out)@ + spec_ser_scalars(vs@.map_values(|x: i64| x as int)),
{
    let ghost fields = vs@.map_values(|x: i64| x as int);
    proof {
        assert(fields.take(0) =~= Seq::<int>::empty());
        assert(out@ =~= old(out)@ + spec_ser_scalars(fields.take(0)));
    }
    let mut i: usize = 0;
    while i < vs.len()
        invariant
            0 <= i <= vs@.len(),
            out@ == old(out)@ + spec_ser_scalars(fields.take(i as int)),
        decreases vs@.len() - i,
    {
        write_int_tok(out, vs[i]);
        proof {
            assert(fields.take(i as int + 1) =~= fields.take(i as int).push(fields[i as int]));
            lemma_ser_scalars_push(fields.take(i as int), fields[i as int]);
        }
        i += 1;
    }
    proof {
        assert(fields.take(vs@.len() as int) =~= fields);
    }
}

/// Appends a transform's ten scalar fields to `out`.
pub fn write_transform(out: &mut String, t: &Transform)
    requires
        transform_ok(*t),
    ensures
        final(out)@ == old(out)@ + spec_ser_transform(*t),
{
    let vs: Vec<i64> = vec![
        t.translation.x,
        t.translation.y,
        t.translation.z,
        t.rotation.x,
        t.rotation.y,
        t.rotation.z,
        t.rotation.w,
        t.scale.x,
        t.scale.y,
        t.scale.z,
    ];
    proof {
        assert(vs@.map_values(|x: i64| x as int) =~= spec_transform_fields(*t));
    }
    write_scalars(out, &vs);
}

/// Appends a color's four channel fields to `out`.
pub fn write_color(out: &mut String, c: &Color)
    requires
        color_ok(*c),
    ensures
        final(out)@ == old(out)@ + spec_ser_color(*c),
{
    let vs: Vec<i64> = vec![c.r, c.g, c.b, c.a];
    proof {
        assert(vs@.map_values(|x: i64| x as int) =~= spec_color_fields(*c));
    }
    write_scalars(out, &vs);
}

/// Appends a flag field to `out`.
pub fn write_bool(out: &mut String, b: bool)
    ensures
        final(out)@ == old(out)@ + spec_ser_bool(b),
{
    if b {
        write_int_tok(out, 1);
    } else {
        write_int_tok(out, 0);
    }
}

/// Appends a shape to `out`.
pub fn write_shape(out: &mut String, sh: &ChunkElementShapeAsset)
    requires
        shape_v_ok(sh@),
    ensures
        final(out)@ == old(out)@ + spec_ser_shape(sh@),
{
    match sh {
        ChunkElementShapeAsset::Plane { size } => {
            write_word_tok(out, "plane");
            write_int_tok(out, *size);
        },
        ChunkElementShapeAsset::Cube { length } => {
            write_word_tok(out, "cube");
            write_int_tok(out, *length);
        },
        ChunkElementShapeAsset::Sphere { radius } => {
            write_word_tok(out, "sphere");
            write_int_tok(out, *radius);
        },
        ChunkElementShapeAsset::Gltf { mesh_path } => {
            write_word_tok(out, "model");
            write_name_tok(out, mesh_path.as_str());
        },
    }
    proof {
        assert(final(out)@ =~= old(out)@ + spec_ser_shape(sh@));
    }
}

/// Appends one marker to `out`.
pub fn write_marker(out: &mut String, m: &ChunkMarker)
    requires
        marker_v_ok(m@),
    ensures
        final(out)@ == old(out)@ + spec_ser_marker(m@),
{
    match m {
        ChunkMarker::PlayerSpawn(t) => {
            write_word_tok(out, "spawn");
            write_transform(out, t);
        },
        ChunkMarker::Light(l) => {
            write_word_tok(out, "light");
            write_transform(out, &l.transform);
            write_int_tok(out, l.intensity);
            write_color(out, &l.color);
            write_int_tok(out, l.range);
        },
        ChunkMarker::SwapSensor(sw) => {
            write_word_tok(out, "swap");
            write_int_tok(out, sw.chunk_a.0 as i64);
            write_int_tok(out, sw.chunk_b.0 as i64);
            write_bool(out, sw.preserve_after_swap);
        },
        ChunkMarker::ReplaceAssetSensor(r) => {
            write_word_tok(out, "replace");
            write_int_tok(out, r.chunk.0 as i64);
            write_name_tok(out, r.descriptor.as_str());
            write_bool(out, r.invert_after_swap);
        },
        ChunkMarker::MoveChunkSensor(mv) => {
            write_word_tok(out, "move");
            write_int_tok(out, mv.chunk.0 as i64);
            write_int_tok(out, mv.x as i64);
            write_int_tok(out, mv.z as i64);
        },
    }
    proof {
        assert(final(out)@ =~= old(out)@ + spec_ser_marker(m@));
    }
}

/// Appending one more marker extends the run's serialization at its end.
pub proof fn lemma_ser_markers_push(ms: Seq<MarkerV>, m: MarkerV)
    ensures
        spec_ser_markers(ms.push(m)) == spec_ser_markers(ms) + spec_ser_marker(m),
    decreases ms.len(),
{
    if ms.len() == 0 {
        assert(ms.push(m)[0] == m);
        assert(ms.push(m).drop_first() =~= Seq::<MarkerV>::empty());
        assert(spec_ser_markers(Seq::<MarkerV>::empty()) =~= Seq::<char>::empty());
        assert(spec_ser_markers(ms.push(m)) =~= spec_ser_markers(ms) + spec_ser_marker(m));
    } else {
        assert(ms.push(m)[0] == ms[0]);
        assert(ms.push(m).drop_first() =~= ms.drop_first().push(m));
        lemma_ser_markers_push(ms.drop_first(), m);
        assert(spec_ser_markers(ms.push(m)) == spec_ser_marker(ms[0]) + spec_ser_markers(
            ms.drop_first().push(m),
        ));
        assert(spec_ser_markers(ms.push(m)) =~= spec_ser_markers(ms) + spec_ser_marker(m));
    }
}

/// Appends a run of markers to `out`.
#[verifier::loop_isolation(false)]
pub fn write_markers(out: &mut String, ms: &Vec<ChunkMarker>)
    requires
        forall|k: int| 0 <= k < ms@.len() ==> marker_v_ok((#[trigger] ms@[k])@),
    ensures
        final(out)@ == old(out)@ + spec_ser_markers(markers_view(ms@)),
{
    let ghost mv = markers_view(ms@);
    proof {
        assert(mv.take(0) =~= Seq::<MarkerV>::empty());
        assert(out@ =~= old(out)@ + spec_ser_markers(mv.take(0)));
    }
    let mut i: usize = 0;
    while i < ms.len()
        invariant
            0 <= i <= ms@.len(),
            out@ == old(out)@ + spec_ser_markers(mv.take(i as int)),
        decreases ms@.len() - i,
    {
        write_marker(out, &ms[i]);
        proof {
            assert(mv.take(i as int + 1) =~= mv.take(i as int).push(mv[i as int]));
            lemma_ser_markers_push(mv.take(i as int), mv[i as int]);
        }
        i += 1;
    }
    proof {
        assert(mv.take(ms@.len() as int) =~= mv);
    }
}

} // verus!

verus! {

/// Appending one more name extends the run's serialization at its end.
pub proof fn lemma_ser_names_push(ns: Seq<Seq<char>>, nm: Seq<char>)
    ensures
        spec_ser_names(ns.push(nm)) == spec_ser_names(ns) + spec_ser_name(nm),
    decreases ns.len(),
{
    if ns.len() == 0 {
        assert(ns.push(nm)[0] == nm);
        assert(ns.push(nm).drop_first() =~= Seq::<Seq<char>>::empty());
        assert(spec_ser_names(Seq::<Seq<char>>::empty()) =~= Seq::<char>::empty());
        assert(spec_ser_names(ns.push(nm)) =~= spec_ser_names(ns) + spec_ser_name(nm));
    } else {
        assert(ns.push(nm)[0] == ns[0]);
        assert(ns.push(nm).drop_first() =~= ns.drop_first().push(nm));
        lemma_ser_names_push(ns.drop_first(), nm);
        assert(spec_ser_names(ns.push(nm)) == spec_ser_name(ns[0]) + spec_ser_names(
            ns.drop_first().push(nm),
        ));
        assert(spec_ser_names(ns.push(nm)) =~= spec_ser_names(ns) + spec_ser_name(nm));
    }
}

/// Appends a run of names to `out`.
#[verifier::loop_isolation(false)]
pub fn write_names(out: &mut String, ns: &Vec<String>)
    ensures
        final(out)@ == old(out)@ + spec_ser_names(ns.deep_view()),
{
    let ghost nv = ns.deep_view();
    proof {
        assert(nv.take(0) =~= Seq::<Seq<char>>::empty());
        assert(out@ =~= old(out)@ + spec_ser_names(nv.take(0)));
    }
    let mut i: usize = 0;
    while i < ns.len()
        invariant
            0 <= i <= ns@.len(),
            nv.len() == ns@.len(),
            out@ == old(out)@ + spec_ser_names(nv.take(i as int)),
        decreases ns@.len() - i,
    {
        proof {
            assert(nv[i as int] == ns@[i as int]@);
        }
        write_name_tok(out, ns[i].as_str());
        proof {
            assert(nv.take(i as int + 1) =~= nv.take(i as int).push(nv[i as int]));
            lemma_ser_names_push(nv.take(i as int), nv[i as int]);
        }
        i += 1;
    }
    proof {
        assert(nv.take(ns@.len() as int) =~= nv);
    }
}

/// Appends one layout entry to `out`.
#[verifier::rlimit(60)]
pub fn write_entry(out: &mut String, id: u32, e: &ChunkEntryAsset)
    requires
        entry_v_ok(e@),
    ensures
        final(out)@ == old(out)@ + spec_ser_entry((id, e@)),
{
    write_int_tok(out, id as i64);
    write_int_tok(out, e.grid_pos.0 as i64);
    write_int_tok(out, e.grid_pos.1 as i64);
    write_name_tok(out, e.descriptor.as_str());
    write_int_tok(out, e.components.len() as i64);
    proof {
        assert forall|k: int| 0 <= k < e.components@.len() implies marker_v_ok(
            (#[trigger] e.components@[k])@,
        ) by {
            assert(e@.components[k] == e.components@[k]@);
        }
    }
    write_markers(out, &e.components);
    proof {
        assert(markers_view(e.components@).len() == e.components@.len());
        assert(final(out)@ =~= old(out)@ + spec_ser_entry((id, e@)));
    }
}

/// Appending one more entry extends the run's serialization at its end.
pub proof fn lemma_ser_entries_push(es: Seq<(u32, EntryV)>, en: (u32, EntryV))
    ensures
        spec_ser_entries(es.push(en)) == spec_ser_entries(es) + spec_ser_entry(en),
    decreases es.len(),
{
    if es.len() == 0 {
        assert(es.push(en)[0] == en);
        assert(es.push(en).drop_first() =~= Seq::<(u32, EntryV)>::empty());
        assert(spec_ser_entries(Seq::<(u32, EntryV)>::empty()) =~= Seq::<char>::empty());
        assert(spec_ser_entries(es.push(en)) =~= spec_ser_entries(es) + spec_ser_entry(en));
    } else {
        assert(es.push(en)[0] == es[0]);
        assert(es.push(en).drop_first() =~= es.drop_first().push(en));
        lemma_ser_entries_push(es.drop_first(), en);
        assert(spec_ser_entries(es.push(en)) == spec_ser_entry(es[0]) + spec_ser_entries(
            es.drop_first().push(en),
        ));
        assert(spec_ser_entries(es.push(en)) =~= spec_ser_entries(es) + spec_ser_entry(en));
    }
}

/// Serializes one element record to the content format.
pub fn serialize_element(e: &ChunkElementAsset) -> (r: String)
    requires
        element_v_ok(e@),
    ensures
        r@ == spec_ser_element_file(e@),
{
    let mut out = String::new();
    write_word_tok(&mut out, "element");
    write_name_tok(&mut out, e.name.as_str());
    write_transform(&mut out, &e.transform);
    write_shape(&mut out, &e.shape);
    write_color(&mut out, &e.color);
    write_bool(&mut out, e.has_collider);
    proof {
        assert(out@ =~= spec_ser_element_file(e@));
    }
    out
}

/// Serializes one descriptor record to the content format.
pub fn serialize_descriptor(d: &ChunkDescriptorAsset) -> (r: String)
    requires
        descriptor_v_ok(d@),
    ensures
        r@ == spec_ser_descriptor_file(d@),
{
    let mut out = String::new();
    write_word_tok(&mut out, "descriptor");
    write_name_tok(&mut out, d.name.as_str());
    proof {
        assert(d.elements.deep_view().len() == d.elements@.len());
    }
    write_int_tok(&mut out, d.elements.len() as i64);
    write_names(&mut out, &d.elements);
    proof {
        assert(out@ =~= spec_ser_descriptor_file(d@));
    }
    out
}

/// Serializes one layout record to the content format, entries in id order.
#[verifier::loop_isolation(false)]
pub fn serialize_layout(l: &ChunkLayoutAsset) -> (r: String)
    requires
        layout_v_ok(l@),
    ensures
        r@ == spec_ser_layout_file(l@),
{
    let ghost lv = l@;
    let mut out = String::new();
    write_word_tok(&mut out, "layout");
    proof {
        assert(lv.chunks.len() == l.chunks@.len());
    }
    write_int_tok(&mut out, l.chunks.len() as i64);
    let ghost head = out@;
    proof {
        assert(lv.chunks.take(0) =~= Seq::<(u32, EntryV)>::empty());
        assert(out@ =~= head + spec_ser_entries(lv.chunks.take(0)));
    }
    let mut i: usize = 0;
    while i < l.chunks.len()
        invariant
            0 <= i <= l.chunks@.len(),
            lv == l@,
            lv.chunks.len() == l.chunks@.len(),
            out@ == head + spec_ser_entries(lv.chunks.take(i as int)),
        decreases l.chunks@.len() - i,
    {
        proof {
            assert(lv.chunks[i as int] == (l.chunks@[i as int].0, l.chunks@[i as int].1@));
            assert(entry_v_ok(lv.chunks[i as int].1));
        }
        write_entry(&mut out, l.chunks[i].0, &l.chunks[i].1);
        proof {
            assert(lv.chunks.take(i as int + 1) =~= lv.chunks.take(i as int).push(
                lv.chunks[i as int],
            ));
            lemma_ser_entries_push(lv.chunks.take(i as int), lv.chunks[i as int]);
        }
        i += 1;
    }
    proof {
        assert(lv.chunks.take(l.chunks@.len() as int) =~= lv.chunks);
        assert(out@ =~= spec_ser_layout_file(lv));
    }
    out
}

} // verus!

verus! {

/// Reads `n` integer fields within the scalar bound.
pub fn read_scalars(s: &str, i: usize, n: u64) -> (r: Option<(Vec<i64>, usize)>)
    requires
        i <= s@.len(),
    ensures
        match r {
            Some((vs, j)) => spec_parse_scalars(s@, i as int, n as int) == Some(
                (vs@.map_values(|x: i64| x as int), j as int),
            ) && i <= j <= s@.len() && vs@.len() == n,
            None => spec_parse_scalars(s@, i as int, n as int) is None,
        },
    decreases n,
{
    if n == 0 {
        let vs: Vec<i64> = Vec::new();
        proof {
            assert(vs@.map_values(|x: i64| x as int) =~= Seq::<int>::empty());
        }
        Some((vs, i))
    } else {
        match read_int_field(s, i, -SCALAR_BOUND, SCALAR_BOUND) {
            Some((v, j)) => match read_scalars(s, j, n - 1) {
                Some((mut vs, k)) => {
                    let ghost before = vs@;
                    vs.insert(0, v);
                    proof {
                        assert(vs@.map_values(|x: i64| x as int) =~= seq![v as int]
                            + before.map_values(|x: i64| x as int));
                    }
                    Some((vs, k))
                },
                None => None,
            },
            None => None,
        }
    }
}

/// Reads a transform.
pub fn read_transform(s: &str, i: usize) -> (r: Option<(Transform, usize)>)
    requires
        i <= s@.len(),
    ensures
        match r {
            Some((t, j)) => spec_parse_transform(s@, i as int) == Some((t, j as int)) && i <= j
                <= s@.len(),
            None => spec_parse_transform(s@, i as int) is None,
        },
{
    match read_scalars(s, i, 10) {
        Some((vs, j)) => {
            let t = Transform {
                translation: Vec3 { x: vs[0], y: vs[1], z: vs[2] },
                rotation: Quat { x: vs[3], y: vs[4], z: vs[5], w: vs[6] },
                scale: Vec3 { x: vs[7], y: vs[8], z: vs[9] },
            };
            proof {
                assert(t == spec_transform_of_fields(vs@.map_values(|x: i64| x as int)));
            }
            Some((t, j))
        },
        None => None,
    }
}

/// Reads a color.
pub fn read_color(s: &str, i: usize) -> (r: Option<(Color, usize)>)
    requires
        i <= s@.len(),
    ensures
        match r {
            Some((c, j)) => spec_parse_color(s@, i as int) == Some((c, j as int)) && i <= j
                <= s@.len(),
            None => spec_parse_color(s@, i as int) is None,
        },
{
    match read_scalars(s, i, 4) {
        Some((vs, j)) => {
            let c = Color { r: vs[0], g: vs[1], b: vs[2], a: vs[3] };
            proof {
                assert(c == spec_color_of_fields(vs@.map_values(|x: i64| x as int)));
            }
            Some((c, j))
        },
        None => None,
    }
}

/// Reads a flag field.
pub fn read_bool(s: &str, i: usize) -> (r: Option<(bool, usize)>)
    requires
        i <= s@.len(),
    ensures
        match r {
            Some((b, j)) => spec_parse_bool(s@, i as int) == Some((b, j as int)) && i <= j
                <= s@.len(),
            None => spec_parse_bool(s@, i as int) is None,
        },
{
    match read_int_field(s, i, 0, 1) {
        Some((v, j)) => Some((v == 1, j)),
        None => None,
    }
}

/// Reads a shape.
pub fn read_shape(s: &str, i: usize) -> (r: Option<(ChunkElementShapeAsset, usize)>)
    requires
        i <= s@.len(),
    ensures
        match r {
            Some((sh, j)) => spec_parse_shape(s@, i as int) == Some((sh@, j as int)) && i <= j
                <= s@.len(),
            None => spec_parse_shape(s@, i as int) is None,
        },
{
    match read_word_tok(s, i) {
        Some((w, j)) => {
            if str_eq(w, "plane") {
                match read_int_field(s, j, -SCALAR_BOUND, SCALAR_BOUND) {
                    Some((v, k)) => Some((ChunkElementShapeAsset::Plane { size: v }, k)),
                    None => None,
                }
            } else if str_eq(w, "cube") {
                match read_int_field(s, j, -SCALAR_BOUND, SCALAR_BOUND) {
                    Some((v, k)) => Some((ChunkElementShapeAsset::Cube { length: v }, k)),
                    None => None,
                }
            } else if str_eq(w, "sphere") {
                match read_int_field(s, j, -SCALAR_BOUND, SCALAR_BOUND) {
                    Some((v, k)) => Some((ChunkElementShapeAsset::Sphere { radius: v }, k)),
                    None => None,
                }
            } else if str_eq(w, "model") {
                match read_name_tok(s, j) {
                    Some((nm, k)) => Some((ChunkElementShapeAsset::Gltf { mesh_path: nm }, k)),
                    None => None,
                }
            } else {
                None
            }
        },
        None => None,
    }
}

/// Reads one marker.
pub fn read_marker(s: &str, i: usize) -> (r: Option<(ChunkMarker, usize)>)
    requires
        i <= s@.len(),
    ensures
        match r {
            Some((m, j)) => spec_parse_marker(s@, i as int) == Some((m@, j as int)) && i <= j
                <= s@.len(),
            None => spec_parse_marker(s@, i as int) is None,
        },
{
    match read_word_tok(s, i) {
        Some((w, j)) => {
            if str_eq(w, "spawn") {
                match read_transform(s, j) {
                    Some((t, k)) => Some((ChunkMarker::PlayerSpawn(t), k)),
                    None => None,
                }
            } else if str_eq(w, "light") {
                match read_transform(s, j) {
                    Some((t, k1)) => match read_int_field(s, k1, -SCALAR_BOUND, SCALAR_BOUND) {
                        Some((intensity, k2)) => match read_color(s, k2) {
                            Some((c, k3)) => match read_int_field(
                                s,
                                k3,
                                -SCALAR_BOUND,
                                SCALAR_BOUND,
                            ) {
                                Some((range, k4)) => Some(
                                    (
                                        ChunkMarker::Light(
                                            ChunkLight { transform: t, intensity, color: c, range },
                                        ),
                                        k4,
                                    ),
                                ),
                                None => None,
                            },
                            None => None,
                        },
                        None => None,
                    },
                    None => None,
                }
            } else if str_eq(w, "swap") {
                match read_int_field(s, j, 0, 0xffff_ffff) {
                    Some((a, k1)) => match read_int_field(s, k1, 0, 0xffff_ffff) {
                        Some((b, k2)) => match read_bool(s, k2) {
                            Some((p, k3)) => Some(
                                (
                                    ChunkMarker::SwapSensor(
                                        SwapSensorChunk {
                                            chunk_a: ChunkId(a as u32),
                                            chunk_b: ChunkId(b as u32),
                                            preserve_after_swap: p,
                                        },
                                    ),
                                    k3,
                                ),
                            ),
                            None => None,
                        },
                        None => None,
                    },
                    None => None,
                }
            } else if str_eq(w, "replace") {
                match read_int_field(s, j, 0, 0xffff_ffff) {
                    Some((c, k1)) => match read_name_tok(s, k1) {
                        Some((nm, k2)) => match read_bool(s, k2) {
                            Some((inv, k3)) => Some(
                                (
                                    ChunkMarker::ReplaceAssetSensor(
                                        ReplaceAssetSensorChunk {
                                            chunk: ChunkId(c as u32),
                                            descriptor: nm,
                                            invert_after_swap: inv,
                                        },
                                    ),
                                    k3,
                                ),
                            ),
                            None => None,
                        },
                        None => None,
                    },
                    None => None,
                }
            } else if str_eq(w, "move") {
                match read_int_field(s, j, 0, 0xffff_ffff) {
                    Some((c, k1)) => match read_int_field(s, k1, i32::MIN as i64, i32::MAX as i64) {
                        Some((x, k2)) => match read_int_field(
                            s,
                            k2,
                            i32::MIN as i64,
                            i32::MAX as i64,
                        ) {
                            Some((z, k3)) => Some(
                                (
                                    ChunkMarker::MoveChunkSensor(
                                        MoveChunkSensorChunk {
                                            chunk: ChunkId(c as u32),
                                            x: x as i32,
                                            z: z as i32,
                                        },
                                    ),
                                    k3,
                                ),
                            ),
                            None => None,
                        },
                        None => None,
                    },
                    None => None,
                }
            } else {
                None
            }
        },
        None => None,
    }
}

/// Reads `n` markers.
pub fn read_markers(s: &str, i: usize, n: i64) -> (r: Option<(Vec<ChunkMarker>, usize)>)
    requires
        i <= s@.len(),
        n >= 0,
    ensures
        match r {
            Some((ms, j)) => spec_parse_markers(s@, i as int, n as int) == Some(
                (markers_view(ms@), j as int),
            ) && i <= j <= s@.len() && ms@.len() == n,
            None => spec_parse_markers(s@, i as int, n as int) is None,
        },
    decreases n,
{
    if n == 0 {
        let ms: Vec<ChunkMarker> = Vec::new();
        proof {
            assert(markers_view(ms@) =~= Seq::<MarkerV>::empty());
        }
        Some((ms, i))
    } else {
        match read_marker(s, i) {
            Some((m, j)) => match read_markers(s, j, n - 1) {
                Some((mut ms, k)) => {
                    let ghost before = ms@;
                    let ghost mv = m@;
                    ms.insert(0, m);
                    proof {
                        assert(markers_view(ms@) =~= seq![mv] + markers_view(before));
                    }
                    Some((ms, k))
                },
                None => None,
            },
            None => None,
        }
    }
}

/// Reads `n` names.
pub fn read_names(s: &str, i: usize, n: i64) -> (r: Option<(Vec<String>, usize)>)
    requires
        i <= s@.len(),
        n >= 0,
    ensures
        match r {
            Some((ns, j)) => spec_parse_names(s@, i as int, n as int) == Some(
                (ns.deep_view(), j as int),
            ) && i <= j <= s@.len() && ns@.len() == n,
            None => spec_parse_names(s@, i as int, n as int) is None,
        },
    decreases n,
{
    if n == 0 {
        let ns: Vec<String> = Vec::new();
        proof {
            assert(ns.deep_view() =~= Seq::<Seq<char>>::empty());
        }
        Some((ns, i))
    } else {
        match read_name_tok(s, i) {
            Some((nm, j)) => match read_names(s, j, n - 1) {
                Some((mut ns, k)) => {
                    let ghost before = ns.deep_view();
                    let ghost nv = nm@;
                    ns.insert(0, nm);
                    proof {
                        assert(ns.deep_view() =~= seq![nv] + before);
                    }
                    Some((ns, k))
                },
                None => None,
            },
            None => None,
        }
    }
}

} // verus!

verus! {

/// Reads one layout entry.
pub fn read_entry(s: &str, i: usize) -> (r: Option<((u32, ChunkEntryAsset), usize)>)
    requires
        i <= s@.len(),
    ensures
        match r {
            Some(((id, e), j)) => spec_parse_entry(s@, i as int) == Some(((id, e@), j as int)) && i
                <= j <= s@.len(),
            None => spec_parse_entry(s@, i as int) is None,
        },
{
    match read_int_field(s, i, 0, 0xffff_ffff) {
        Some((id, j1)) => match read_int_field(s, j1, i32::MIN as i64, i32::MAX as i64) {
            Some((x, j2)) => match read_int_field(s, j2, i32::MIN as i64, i32::MAX as i64) {
                Some((z, j3)) => match read_name_tok(s, j3) {
                    Some((nm, j4)) => match read_int_field(s, j4, 0, i64::MAX) {
                        Some((n, j5)) => match read_markers(s, j5, n) {
                            Some((ms, j6)) => {
                                let e = ChunkEntryAsset {
                                    grid_pos: (x as i32, z as i32),
                                    descriptor: nm,
                                    components: ms,
                                };
                                Some(((id as u32, e), j6))
                            },
                            None => None,
                        },
                        None => None,
                    },
                    None => None,
                },
                None => None,
            },
            None => None,
        },
        None => None,
    }
}

/// Reads `n` layout entries.
pub fn read_entries(s: &str, i: usize, n: i64) -> (r: Option<(Vec<(u32, ChunkEntryAsset)>, usize)>)
    requires
        i <= s@.len(),
        n >= 0,
    ensures
        match r {
            Some((es, j)) => spec_parse_entries(s@, i as int, n as int) == Some(
                (Seq::new(es@.len(), |k: int| (es@[k].0, es@[k].1@)), j as int),
            ) && i <= j <= s@.len() && es@.len() == n,
            None => spec_parse_entries(s@, i as int, n as int) is None,
        },
    decreases n,
{
    if n == 0 {
        let es: Vec<(u32, ChunkEntryAsset)> = Vec::new();
        proof {
            assert(Seq::new(es@.len(), |k: int| (es@[k].0, es@[k].1@)) =~= Seq::<
                (u32, EntryV),
            >::empty());
        }
        Some((es, i))
    } else {
        match read_entry(s, i) {
            Some((en, j)) => match read_entries(s, j, n - 1) {
                Some((mut es, k)) => {
                    let ghost before = Seq::new(es@.len(), |k: int| (es@[k].0, es@[k].1@));
                    let ghost env = (en.0, en.1@);
                    es.insert(0, en);
                    proof {
                        assert(Seq::new(es@.len(), |k: int| (es@[k].0, es@[k].1@)) =~= seq![env]
                            + before);
                    }
                    Some((es, k))
                },
                None => None,
            },
            None => None,
        }
    }
}

/// Whether the entries' chunk ids strictly increase.
#[verifier::loop_isolation(false)]
pub fn entries_sorted(es: &Vec<(u32, ChunkEntryAsset)>) -> (r: bool)
    ensures
        r == layout_ids_sorted(Seq::new(es@.len(), |k: int| (es@[k].0, es@[k].1@))),
{
    let ghost ev = Seq::new(es@.len(), |k: int| (es@[k].0, es@[k].1@));
    let mut i: usize = 1;
    while i < es.len()
        invariant
            1 <= i <= es@.len() || es@.len() == 0,
            forall|k: int| 0 <= k < i - 1 ==> (#[trigger] ev[k]).0 < ev[k + 1].0,
        decreases es@.len() - i,
    {
        if es[i - 1].0 >= es[i].0 {
            proof {
                assert(ev[i - 1].0 >= ev[i as int].0);
                assert(!layout_ids_sorted(ev));
            }
            return false;
        }
        i += 1;
    }
    proof {
        assert forall|a: int, b: int| 0 <= a < b < ev.len() implies ev[a].0 < ev[b].0 by {
            crate::chunk_assets::lemma_adjacent_sorted(ev, a, b);
        }
    }
    true
}

/// Parses a whole element file. Returns the element exactly when the text
/// is one well-formed element record with nothing after it.
pub fn parse_element(s: &str) -> (r: Option<ChunkElementAsset>)
    ensures
        match r {
            Some(e) => spec_parse_element_file(s@) == Some(e@),
            None => spec_parse_element_file(s@) is None,
        },
{
    let n = s.unicode_len();
    match read_word_tok(s, 0) {
        Some((w, j0)) => {
            if str_eq(w, "element") {
                match read_name_tok(s, j0) {
                    Some((nm, j1)) => match read_transform(s, j1) {
                        Some((t, j2)) => match read_shape(s, j2) {
                            Some((sh, j3)) => match read_color(s, j3) {
                                Some((c, j4)) => match read_bool(s, j4) {
                                    Some((hc, j5)) => {
                                        if j5 == n {
                                            Some(
                                                ChunkElementAsset {
                                                    name: nm,
                                                    transform: t,
                                                    shape: sh,
                                                    color: c,
                                                    has_collider: hc,
                                                },
                                            )
                                        } else {
                                            None
                                        }
                                    },
                                    None => None,
                                },
                                None => None,
                            },
                            None => None,
                        },
                        None => None,
                    },
                    None => None,
                }
            } else {
                None
            }
        },
        None => None,
    }
}

/// Parses a whole descriptor file. Returns the descriptor exactly when the
/// text is one well-formed descriptor record with nothing after it.
pub fn parse_descriptor(s: &str) -> (r: Option<ChunkDescriptorAsset>)
    ensures
        match r {
            Some(d) => spec_parse_descriptor_file(s@) == Some(d@),
            None => spec_parse_descriptor_file(s@) is None,
        },
{
    let n = s.unicode_len();
    match read_word_tok(s, 0) {
        Some((w, j0)) => {
            if str_eq(w, "descriptor") {
                match read_name_tok(s, j0) {
                    Some((nm, j1)) => match read_int_field(s, j1, 0, i64::MAX) {
                        Some((cnt, j2)) => match read_names(s, j2, cnt) {
                            Some((ns, j3)) => {
                                if j3 == n {
                                    Some(ChunkDescriptorAsset { name: nm, elements: ns })
                                } else {
                                    None
                                }
                            },
                            None => None,
                        },
                        None => None,
                    },
                    None => None,
                }
            } else {
                None
            }
        },
        None => None,
    }
}

/// Parses a whole layout file. Returns the layout exactly when the text is
/// one well-formed layout record — its chunk ids strictly increasing — with
/// nothing after it.
pub fn parse_layout(s: &str) -> (r: Option<ChunkLayoutAsset>)
    ensures
        match r {
            Some(l) => spec_parse_layout_file(s@) == Some(l@),
            None => spec_parse_layout_file(s@) is None,
        },
{
    let n = s.unicode_len();
    match read_word_tok(s, 0) {
        Some((w, j0)) => {
            if str_eq(w, "layout") {
                match read_int_field(s, j0, 0, i64::MAX) {
                    Some((cnt, j1)) => match read_entries(s, j1, cnt) {
                        Some((es, j2)) => {
                            if entries_sorted(&es) {
                                if j2 == n {
                                    let l = ChunkLayoutAsset { chunks: es };
                                    proof {
                                        assert(l@.chunks =~= Seq::new(
                                            es@.len(),
                                            |k: int| (es@[k].0, es@[k].1@),
                                        ));
                                        assert(l@ == (LayoutV { chunks: l@.chunks }));
                                    }
                                    Some(l)
                                } else {
                                    None
                                }
                            } else {
                                None
                            }
                        },
                        None => None,
                    },
                    None => None,
                }
            } else {
                None
            }
        },
        None => None,
    }
}

} // verus!

verus! {

/// A whole string holding exactly one integer: an optional minus sign, then
/// digits to the end.
pub open spec fn spec_parse_plain_int(s: Seq<char>) -> Option<int> {
    if s.len() > 0 && s[0] == '-' {
        let e = digits_end(s, 1);
        if e == s.len() && e > 1 {
            Some(-digits_val(s.subrange(1, e)))
        } else {
            None
        }
    } else {
        let e = digits_end(s, 0);
        if e == s.len() && e > 0 {
            Some(digits_val(s))
        } else {
            None
        }
    }
}

/// The decimal text of an integer, without any terminator.
pub fn int_string(n: i64) -> (r: String)
    requires
        n > i64::MIN,
    ensures
        r@ == spec_print_int(n as int),
{
    proof {
        reveal_strlit("-");
    }
    let mut out = String::new();
    if n < 0 {
        out.append("-");
        write_uint(&mut out, (-n) as u64);
    } else {
        write_uint(&mut out, n as u64);
    }
    proof {
        assert(out@ =~= spec_print_int(n as int));
    }
    out
}

/// Printing an integer and re-parsing the text yields the integer back.
pub proof fn lemma_plain_int_round_trip(n: int)
    ensures
        spec_parse_plain_int(spec_print_int(n)) == Some(n),
{
    let s = spec_print_int(n);
    if n < 0 {
        lemma_print_uint(-n);
        let d = spec_print_uint(-n);
        assert(s[0] == '-');
        assert(forall|k: int| 1 <= k < s.len() ==> is_digit(#[trigger] s[k]) && s[k] == d[k - 1]);
        lemma_digits_end(s, 1, s.len() as int);
        assert(s.subrange(1, s.len() as int) =~= d);
    } else {
        lemma_print_uint(n);
        assert(forall|k: int| 0 <= k < s.len() ==> is_digit(#[trigger] s[k]));
        assert(s[0] != '-');
        lemma_digits_end(s, 0, s.len() as int);
        assert(s.subrange(0, s.len() as int) =~= s);
    }
}

/// Parses a whole string as an integer in `[lo, hi]`: an optional minus
/// sign, then digits to the end, nothing else. This is how the editor reads
/// its position text fields.
#[verifier::loop_isolation(false)]
pub fn parse_plain_int(s: &str, lo: i64, hi: i64) -> (r: Option<i64>)
    requires
        lo > i64::MIN,
    ensures
        match r {
            Some(v) => spec_parse_plain_int(s@) == Some(v as int) && lo <= v <= hi,
            None => match spec_parse_plain_int(s@) {
                Some(v) => !(lo <= v <= hi),
                None => true,
            },
        },
{
    let n = s.unicode_len();
    let neg = n > 0 && s.get_char(0) == '-';
    let p: usize = if neg {
        1
    } else {
        0
    };
    let mut j = p;
    let mut acc: u64 = 0;
    let mut too_big = false;
    while j < n && is_digit_exec(s.get_char(j))
        invariant
            p <= j <= n,
            forall|k: int| p <= k < j ==> is_digit(#[trigger] s@[k]),
            !too_big ==> acc as int == digits_val(s@.subrange(p as int, j as int)) && acc
                <= i64::MAX as u64,
            too_big ==> digits_val(s@.subrange(p as int, j as int)) > i64::MAX as int,
        decreases n - j,
    {
        let d = digit_of_exec(s.get_char(j));
        proof {
            assert(s@.subrange(p as int, j as int + 1).drop_last() =~= s@.subrange(
                p as int,
                j as int,
            ));
            assert(s@.subrange(p as int, j as int + 1).last() == s@[j as int]);
        }
        if too_big {
        } else if acc > 922337203685477580u64 || (acc == 922337203685477580u64 && d > 7) {
            too_big = true;
            proof {
                assert(digits_val(s@.subrange(p as int, j as int + 1)) == acc as int * 10
                    + d as int);
            }
        } else {
            acc = acc * 10 + d;
        }
        j += 1;
    }
    proof {
        lemma_digits_end(s@, p as int, j as int);
    }
    if j != n || j == p {
        proof {
            if neg {
                assert(digits_end(s@, 1) == j);
                assert(spec_parse_plain_int(s@) is None);
            } else {
                assert(digits_end(s@, 0) == j);
                assert(spec_parse_plain_int(s@) is None);
            }
        }
        return None;
    }
    if too_big {
        proof {
            if neg {
                assert(s@.subrange(1, n as int) == s@.subrange(p as int, j as int));
            } else {
                assert(s@ =~= s@.subrange(p as int, j as int));
            }
        }
        return None;
    }
    proof {
        if !neg {
            assert(s@.subrange(0, n as int) =~= s@);
        }
    }
    let v: i64 = if neg {
        -(acc as i64)
    } else {
        acc as i64
    };
    if lo <= v && v <= hi {
        Some(v)
    } else {
        None
    }
}

} // verus!
