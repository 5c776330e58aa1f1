//! Working with text: what the rules need beyond joining pieces.

use vstd::prelude::*;

verus! {

/// `String::push` of std: appends one character.
pub assume_specification[ String::push ](s: &mut String, c: char)
    ensures
        final(s)@ == old(s)@.push(c),
;

/// A value that can be copied without changing what it stands for.
pub trait Duplicate: View + Sized {
    fn duplicate(&self) -> (r: Self)
        ensures
            r@ == self@,
    ;
}

impl Duplicate for String {
    fn duplicate(&self) -> (r: String) {
        self.clone()
    }
}

/// What the elements of a sequence stand for.
pub open spec fn views<T: View>(s: Seq<T>) -> Seq<T::V> {
    Seq::new(s.len(), |i: int| s[i]@)
}

pub proof fn views_push<T: View>(s: Seq<T>, t: T)
    ensures
        views(s.push(t)) == views(s).push(t@),
{
    assert(views(s.push(t)) =~= views(s).push(t@));
}

/// What an optional value stands for.
pub open spec fn seen<T: View>(o: Option<T>) -> Option<T::V> {
    match o {
        Some(t) => Some(t@),
        None => None,
    }
}

pub fn duplicate_all<T: Duplicate>(v: &Vec<T>) -> (r: Vec<T>)
    ensures
        views(r@) == views(v@),
{
    let mut r: Vec<T> = Vec::new();
    let mut i: usize = 0;
    while i < v.len()
        invariant
            i <= v.len(),
            views(r@) == views(v@).take(i as int),
        decreases v.len() - i,
    {
        let t = v[i].duplicate();
        proof {
            views_push(r@, t);
            assert(views(v@).take(i + 1) =~= views(v@).take(i as int).push(t@));
        }
        r.push(t);
        i += 1;
    }
    assert(views(v@).take(i as int) =~= views(v@));
    r
}

pub fn duplicate_opt<T: Duplicate>(o: &Option<T>) -> (r: Option<T>)
    ensures
        seen(r) == seen(*o),
{
    match o {
        Some(t) => Some(t.duplicate()),
        None => None,
    }
}

/// What a sequence of texts holds.
pub open spec fn texts(s: Seq<String>) -> Seq<Seq<char>> {
    views(s)
}

pub proof fn texts_push(s: Seq<String>, t: String)
    ensures
        texts(s.push(t)) == texts(s).push(t@),
{
    assert(texts(s.push(t)) =~= texts(s).push(t@));
}

/// Whether two texts are the same.
pub fn same(a: &str, b: &str) -> (r: bool)
    ensures
        r == (a@ == b@),
{
    let x: String = a.to_owned();
    let y: String = b.to_owned();
    x == y
}

/// The characters of a text.
pub fn chars_of(s: &str) -> (r: Vec<char>)
    ensures
        r@ == s@,
{
    let mut r: Vec<char> = Vec::new();
    for c in it: s.chars()
        invariant
            r@ == s@.take(it.index() as int),
            it.seq() == s@,
    {
        r.push(c);
        assert(r@ =~= s@.take(it.index() + 1));
    }
    assert(s@.take(s@.len() as int) =~= s@);
    r
}

/// The text made of the characters from `from` up to `to`.
pub fn text_of(v: &Vec<char>, from: usize, to: usize) -> (r: String)
    requires
        from <= to <= v@.len(),
    ensures
        r@ == v@.subrange(from as int, to as int),
{
    let mut r = String::new();
    let mut i: usize = from;
    while i < to
        invariant
            from <= i <= to <= v@.len(),
            r@ == v@.subrange(from as int, i as int),
        decreases to - i,
    {
        r.push(v[i]);
        assert(r@ =~= v@.subrange(from as int, i + 1));
        i += 1;
    }
    r
}

/// `s` starts with `p`.
pub open spec fn begins(s: Seq<char>, p: Seq<char>) -> bool {
    p.len() <= s.len() && s.take(p.len() as int) == p
}

/// `s` stops with `p`.
pub open spec fn finishes(s: Seq<char>, p: Seq<char>) -> bool {
    p.len() <= s.len() && s.skip(s.len() - p.len()) == p
}

/// Whether the characters of `v` from `at` on start with those of `p`.
pub fn stands_at(v: &Vec<char>, at: usize, p: &Vec<char>) -> (b: bool)
    requires
        at <= v@.len(),
    ensures
        b == begins(v@.skip(at as int), p@),
{
    if v.len() - at < p.len() {
        return false;
    }
    let ghost rest = v@.skip(at as int);
    let mut i: usize = 0;
    while i < p.len()
        invariant
            i <= p.len(),
            at + p.len() <= v.len(),
            rest == v@.skip(at as int),
            forall|k: int| 0 <= k < i ==> rest[k] == #[trigger] p@[k],
        decreases p.len() - i,
    {
        if v[at + i] != p[i] {
            assert(rest[i as int] != p@[i as int]);
            assert(rest.take(p@.len() as int)[i as int] == rest[i as int]);
            return false;
        }
        assert(rest[i as int] == p@[i as int]);
        i += 1;
    }
    assert(rest.take(p@.len() as int) =~= p@);
    true
}

pub fn starts_with(s: &str, p: &str) -> (b: bool)
    ensures
        b == begins(s@, p@),
{
    let v = chars_of(s);
    assert(v@.skip(0) =~= v@);
    stands_at(&v, 0, &chars_of(p))
}

pub fn ends_with(s: &str, p: &str) -> (b: bool)
    ensures
        b == finishes(s@, p@),
{
    let v = chars_of(s);
    let q = chars_of(p);
    if q.len() > v.len() {
        return false;
    }
    proof {
        let rest = v@.skip(v@.len() - q@.len());
        assert(rest.take(q@.len() as int) =~= rest);
    }
    stands_at(&v, v.len() - q.len(), &q)
}

/// What follows `p`, if `s` starts with it.
pub fn drop_prefix(s: &str, p: &str) -> (r: Option<String>)
    ensures
        match r {
            Some(rest) => begins(s@, p@) && rest@ == s@.skip(p@.len() as int),
            None => !begins(s@, p@),
        },
{
    let v = chars_of(s);
    let q = chars_of(p);
    assert(v@.skip(0) =~= v@);
    if stands_at(&v, 0, &q) {
        Some(text_of(&v, q.len(), v.len()))
    } else {
        None
    }
}

/// The texts one after another, with `sep` between two of them.
pub open spec fn join(parts: Seq<Seq<char>>, sep: Seq<char>) -> Seq<char>
    decreases parts.len(),
{
    if parts.len() == 0 {
        Seq::empty()
    } else if parts.len() == 1 {
        parts[0]
    } else {
        join(parts.drop_last(), sep) + sep + parts.last()
    }
}

pub fn join_texts(parts: &Vec<String>, sep: &str) -> (r: String)
    ensures
        r@ == join(texts(parts@), sep@),
{
    if parts.len() == 0 {
        return String::new();
    }
    let mut r = parts[0].clone();
    let mut i: usize = 1;
    proof {
        assert(texts(parts@).take(1).len() == 1);
    }
    while i < parts.len()
        invariant
            1 <= i <= parts.len(),
            r@ == join(texts(parts@).take(i as int), sep@),
        decreases parts.len() - i,
    {
        r.append(sep);
        r.append(parts[i].as_str());
        proof {
            let all = texts(parts@);
            assert(all.take(i + 1).drop_last() =~= all.take(i as int));
        }
        i += 1;
    }
    assert(texts(parts@).take(i as int) =~= texts(parts@));
    r
}

/// The decimal digit for a value below ten.
pub open spec fn digit_char(v: int) -> char {
    ('0' as int + v) as char
}

/// A number in decimal.
pub open spec fn decimal(n: int) -> Seq<char>
    decreases n,
{
    if n < 10 {
        seq![digit_char(n)]
    } else {
        decimal(n / 10).push(digit_char(n % 10))
    }
}

/// An integer in decimal, with a sign when negative.
pub open spec fn signed(n: int) -> Seq<char> {
    if n < 0 {
        "-"@ + decimal(-n)
    } else {
        decimal(n)
    }
}

fn digit_of(v: u128) -> (c: char)
    requires
        v < 10,
    ensures
        c == digit_char(v as int),
{
    (48u8 + v as u8) as char
}

pub fn number_text(n: u128) -> (r: String)
    ensures
        r@ == decimal(n as int),
    decreases n,
{
    if n < 10 {
        let mut r = String::new();
        r.push(digit_of(n));
        assert(r@ =~= seq![digit_char(n as int)]);
        r
    } else {
        let mut r = number_text(n / 10);
        r.push(digit_of(n % 10));
        r
    }
}

pub fn u64_text(n: u64) -> (r: String)
    ensures
        r@ == decimal(n as int),
{
    number_text(n as u128)
}

pub fn usize_text(n: usize) -> (r: String)
    ensures
        r@ == decimal(n as int),
{
    number_text(n as u128)
}

pub fn i64_text(n: i64) -> (r: String)
    ensures
        r@ == signed(n as int),
{
    if n < 0 {
        let mut r = "-".to_owned();
        r.append(number_text((-(n as i128)) as u128).as_str());
        r
    } else {
        number_text(n as u128)
    }
}

pub open spec fn is_digit(c: char) -> bool {
    '0' <= c <= '9'
}

pub open spec fn all_digits(s: Seq<char>) -> bool {
    forall|i: int| 0 <= i < s.len() ==> is_digit(#[trigger] s[i])
}

/// The number that decimal digits stand for.
pub open spec fn digits_number(s: Seq<char>) -> int
    decreases s.len(),
{
    if s.len() == 0 {
        0
    } else {
        digits_number(s.drop_last()) * 10 + (s.last() as int - '0' as int)
    }
}

pub proof fn digits_number_grows(s: Seq<char>, k: int)
    requires
        all_digits(s),
        0 <= k <= s.len(),
    ensures
        0 <= digits_number(s.take(k)) <= digits_number(s),
    decreases s.len(),
{
    if k < s.len() {
        let t = s.drop_last();
        assert(t.take(k) =~= s.take(k));
        assert(is_digit(s[s.len() - 1]));
        assert forall|i: int| 0 <= i < t.len() implies is_digit(#[trigger] t[i]) by {
            assert(t[i] == s[i]);
        }
        digits_number_grows(t, k);
        assert(t.take(t.len() as int) =~= t);
        digits_number_grows(t, t.len() as int);
    } else {
        assert(s.take(k) =~= s);
        if s.len() > 0 {
            let t = s.drop_last();
            assert forall|i: int| 0 <= i < t.len() implies is_digit(#[trigger] t[i]) by {
                assert(t[i] == s[i]);
            }
            assert(is_digit(s[s.len() - 1]));
            digits_number_grows(t, t.len() as int);
            assert(t.take(t.len() as int) =~= t);
        }
    }
}

/// The number that the digits of `v` from `from` up to `to` stand for, unless
/// it is above `u64::MAX` or one of them is no digit.
pub fn digits_in(v: &Vec<char>, from: usize, to: usize) -> (r: Option<u64>)
    requires
        from <= to <= v@.len(),
    ensures
        match r {
            Some(n) => {
                &&& all_digits(v@.subrange(from as int, to as int))
                &&& digits_number(v@.subrange(from as int, to as int)) == n
            },
            None => {
                ||| !all_digits(v@.subrange(from as int, to as int))
                ||| digits_number(v@.subrange(from as int, to as int)) > u64::MAX
            },
        },
{
    let ghost part = v@.subrange(from as int, to as int);
    let mut j: usize = from;
    while j < to
        invariant
            from <= j <= to <= v@.len(),
            part == v@.subrange(from as int, to as int),
            forall|k: int| 0 <= k < j - from ==> is_digit(#[trigger] part[k]),
        decreases to - j,
    {
        if v[j] < '0' || v[j] > '9' {
            assert(!is_digit(part[j - from]));
            return None;
        }
        assert(is_digit(part[j - from]));
        j += 1;
    }
    let mut n: u64 = 0;
    let mut i: usize = from;
    while i < to
        invariant
            from <= i <= to <= v@.len(),
            part == v@.subrange(from as int, to as int),
            all_digits(part),
            n == digits_number(part.take(i - from)),
        decreases to - i,
    {
        assert(is_digit(part[i - from]));
        let d: u64 = (v[i] as u32 - '0' as u32) as u64;
        proof {
            assert(part.take(i - from + 1).drop_last() =~= part.take(i - from));
            assert(digits_number(part.take(i - from + 1)) == n * 10 + d);
            digits_number_grows(part, i - from + 1);
        }
        if n > (u64::MAX - d) / 10 {
            return None;
        }
        n = n * 10 + d;
        i += 1;
    }
    assert(part.take(i - from) =~= part);
    Some(n)
}

/// A character of white space, as Unicode has it.
pub open spec fn is_space(c: char) -> bool {
    ||| '\u{9}' <= c <= '\u{d}'
    ||| c == ' '
    ||| c == '\u{85}'
    ||| c == '\u{a0}'
    ||| c == '\u{1680}'
    ||| '\u{2000}' <= c <= '\u{200a}'
    ||| c == '\u{2028}'
    ||| c == '\u{2029}'
    ||| c == '\u{202f}'
    ||| c == '\u{205f}'
    ||| c == '\u{3000}'
}

pub fn is_white(c: char) -> (b: bool)
    ensures
        b == is_space(c),
{
    ('\u{9}' <= c && c <= '\u{d}') || c == ' ' || c == '\u{85}' || c == '\u{a0}' || c
        == '\u{1680}' || ('\u{2000}' <= c && c <= '\u{200a}') || c == '\u{2028}' || c == '\u{2029}'
        || c == '\u{202f}' || c == '\u{205f}' || c == '\u{3000}'
}

/// The text without white space in front.
pub open spec fn trim_left(s: Seq<char>) -> Seq<char>
    decreases s.len(),
{
    if s.len() > 0 && is_space(s[0]) {
        trim_left(s.drop_first())
    } else {
        s
    }
}

/// The text without white space behind.
pub open spec fn trim_right(s: Seq<char>) -> Seq<char>
    decreases s.len(),
{
    if s.len() > 0 && is_space(s.last()) {
        trim_right(s.drop_last())
    } else {
        s
    }
}

/// The text without white space around it.
pub open spec fn trimmed(s: Seq<char>) -> Seq<char> {
    trim_right(trim_left(s))
}

fn left_edge(v: &Vec<char>) -> (i: usize)
    ensures
        i <= v@.len(),
        trim_left(v@) == v@.skip(i as int),
{
    let mut i: usize = 0;
    assert(v@.skip(0) =~= v@);
    while i < v.len() && is_white(v[i])
        invariant
            i <= v.len(),
            trim_left(v@) == trim_left(v@.skip(i as int)),
        decreases v.len() - i,
    {
        proof {
            assert(v@.skip(i as int)[0] == v@[i as int]);
            assert(v@.skip(i as int).drop_first() =~= v@.skip(i + 1));
        }
        i += 1;
    }
    proof {
        if i < v.len() {
            assert(v@.skip(i as int)[0] == v@[i as int]);
        }
    }
    i
}

pub fn trim(s: &str) -> (r: String)
    ensures
        r@ == trimmed(s@),
{
    let v = chars_of(s);
    let i = left_edge(&v);
    let mut j: usize = v.len();
    let ghost rest = v@.skip(i as int);
    assert(v@.subrange(i as int, j as int) =~= rest);
    while j > i && is_white(v[j - 1])
        invariant
            i <= j <= v.len(),
            trim_right(rest) == trim_right(v@.subrange(i as int, j as int)),
        decreases j,
    {
        proof {
            assert(v@.subrange(i as int, j as int).last() == v@[j - 1]);
            assert(v@.subrange(i as int, j as int).drop_last() =~= v@.subrange(i as int, j - 1));
        }
        j -= 1;
    }
    proof {
        if j > i {
            assert(v@.subrange(i as int, j as int).last() == v@[j - 1]);
        }
    }
    text_of(&v, i, j)
}

pub fn trim_end(s: &str) -> (r: String)
    ensures
        r@ == trim_right(s@),
{
    let v = chars_of(s);
    let mut j: usize = v.len();
    assert(v@.take(j as int) =~= v@);
    while j > 0 && is_white(v[j - 1])
        invariant
            j <= v.len(),
            trim_right(v@) == trim_right(v@.take(j as int)),
        decreases j,
    {
        proof {
            assert(v@.take(j as int).last() == v@[j - 1]);
            assert(v@.take(j as int).drop_last() =~= v@.take(j - 1));
        }
        j -= 1;
    }
    proof {
        if j > 0 {
            assert(v@.take(j as int).last() == v@[j - 1]);
        }
        assert(v@.subrange(0, j as int) =~= v@.take(j as int));
    }
    text_of(&v, 0, j)
}

pub fn trim_start(s: &str) -> (r: String)
    ensures
        r@ == trim_left(s@),
{
    let v = chars_of(s);
    let i = left_edge(&v);
    assert(v@.subrange(i as int, v@.len() as int) =~= v@.skip(i as int));
    text_of(&v, i, v.len())
}

/// `p` stands somewhere in `s`.
pub open spec fn holds(s: Seq<char>, p: Seq<char>) -> bool {
    exists|i: int| 0 <= i <= s.len() && begins(#[trigger] s.skip(i), p)
}

pub fn contains(s: &str, p: &str) -> (b: bool)
    ensures
        b == holds(s@, p@),
{
    let v = chars_of(s);
    let q = chars_of(p);
    let mut i: usize = 0;
    while i < v.len()
        invariant
            i <= v.len(),
            v@ == s@,
            q@ == p@,
            forall|k: int| 0 <= k < i ==> !begins(#[trigger] s@.skip(k), p@),
        decreases v.len() - i,
    {
        if stands_at(&v, i, &q) {
            return true;
        }
        i += 1;
    }
    stands_at(&v, i, &q)
}

/// The pieces of `s` between separators; always at least one.
pub open spec fn pieces(s: Seq<char>, sep: spec_fn(char) -> bool) -> Seq<Seq<char>>
    decreases s.len(),
{
    if s.len() == 0 {
        seq![Seq::empty()]
    } else {
        let front = pieces(s.drop_last(), sep);
        if sep(s.last()) {
            front.push(Seq::empty())
        } else {
            front.drop_last().push(front.last().push(s.last()))
        }
    }
}

pub proof fn pieces_never_none(s: Seq<char>, sep: spec_fn(char) -> bool)
    ensures
        pieces(s, sep).len() >= 1,
    decreases s.len(),
{
    if s.len() > 0 {
        pieces_never_none(s.drop_last(), sep);
    }
}

/// No piece holds a separator.
pub proof fn pieces_hold_no_separator(s: Seq<char>, sep: spec_fn(char) -> bool)
    ensures
        forall|i: int, k: int|
            0 <= i < pieces(s, sep).len() && 0 <= k < pieces(s, sep)[i].len()
                ==> !sep(#[trigger] pieces(s, sep)[i][k]),
    decreases s.len(),
{
    if s.len() > 0 {
        pieces_never_none(s.drop_last(), sep);
        pieces_hold_no_separator(s.drop_last(), sep);
        let front = pieces(s.drop_last(), sep);
        let all = pieces(s, sep);
        assert forall|i: int, k: int| 0 <= i < all.len() && 0 <= k < all[i].len() implies !sep(
            #[trigger] all[i][k],
        ) by {
            if sep(s.last()) {
                if i < front.len() {
                    assert(all[i] == front[i]);
                    assert(!sep(front[i][k]));
                }
            } else if i < front.len() - 1 {
                assert(all[i] == front[i]);
                assert(!sep(front[i][k]));
            } else {
                assert(all[i] == front.last().push(s.last()));
                if k < front.last().len() {
                    assert(!sep(front[i][k]));
                }
            }
        }
    }
}

/// Where a property holds of the characters of every part and of what stands
/// between them, it holds of the parts joined.
pub proof fn join_keeps(parts: Seq<Seq<char>>, sep: Seq<char>, p: spec_fn(char) -> bool)
    requires
        forall|i: int, k: int|
            0 <= i < parts.len() && 0 <= k < parts[i].len() ==> p(#[trigger] parts[i][k]),
        forall|k: int| 0 <= k < sep.len() ==> p(#[trigger] sep[k]),
    ensures
        forall|k: int| 0 <= k < join(parts, sep).len() ==> p(#[trigger] join(parts, sep)[k]),
    decreases parts.len(),
{
    if parts.len() > 1 {
        let rest = parts.drop_last();
        assert forall|i: int, k: int| 0 <= i < rest.len() && 0 <= k < rest[i].len() implies p(
            #[trigger] rest[i][k],
        ) by {
            assert(p(parts[i][k]));
        }
        join_keeps(rest, sep, p);
        let a = join(rest, sep);
        let all = join(parts, sep);
        assert forall|k: int| 0 <= k < all.len() implies p(#[trigger] all[k]) by {
            if k < a.len() {
                assert(all[k] == a[k]);
            } else if k < a.len() + sep.len() {
                assert(all[k] == sep[k - a.len()]);
            } else {
                let x = k - a.len() - sep.len();
                assert(all[k] == parts[parts.len() - 1][x]);
            }
        }
    } else if parts.len() == 1 {
        assert forall|k: int| 0 <= k < join(parts, sep).len() implies p(
            #[trigger] join(parts, sep)[k],
        ) by {
            assert(p(parts[0][k]));
        }
    }
}

/// The pieces between separators; `is_sep` tells which characters are.
pub(crate) fn split_pieces<F: Fn(char) -> bool>(
    s: &str,
    is_sep: F,
    Ghost(sep): Ghost<spec_fn(char) -> bool>,
) -> (r: Vec<String>)
    requires
        forall|c: char| #[trigger] is_sep.requires((c,)),
        forall|c: char, b: bool| #[trigger] is_sep.ensures((c,), b) ==> b == sep(c),
    ensures
        texts(r@) == pieces(s@, sep),
{
    let v = chars_of(s);
    let mut r: Vec<String> = Vec::new();
    let mut last = String::new();
    let mut i: usize = 0;
    proof {
        assert(texts(r@).push(last@) =~= seq![Seq::<char>::empty()]);
    }
    while i < v.len()
        invariant
            i <= v.len(),
            v@ == s@,
            forall|c: char| #[trigger] is_sep.requires((c,)),
            forall|c: char, b: bool| #[trigger] is_sep.ensures((c,), b) ==> b == sep(c),
            texts(r@).push(last@) == pieces(v@.take(i as int), sep),
        decreases v.len() - i,
    {
        let c = v[i];
        let ghost front = pieces(v@.take(i as int), sep);
        proof {
            assert(v@.take(i + 1).drop_last() =~= v@.take(i as int));
            assert(front.drop_last() =~= texts(r@));
        }
        if is_sep(c) {
            proof {
                texts_push(r@, last);
            }
            r.push(last);
            last = String::new();
        } else {
            last.push(c);
        }
        i += 1;
    }
    proof {
        assert(v@.take(i as int) =~= v@);
        texts_push(r@, last);
    }
    r.push(last);
    r
}

/// How many bytes a character takes in UTF-8.
pub open spec fn width(c: char) -> int {
    if (c as u32) < 0x80 {
        1
    } else if (c as u32) < 0x800 {
        2
    } else if (c as u32) < 0x10000 {
        3
    } else {
        4
    }
}

/// How many bytes a text takes in UTF-8.
pub open spec fn byte_len(s: Seq<char>) -> int {
    vstd::utf8::encode_utf8(s).len() as int
}

pub proof fn byte_len_step(s: Seq<char>, i: int)
    requires
        0 <= i < s.len(),
    ensures
        byte_len(s.skip(i)) == width(s[i]) + byte_len(s.skip(i + 1)),
{
    let t = s.skip(i);
    assert(t[0] == s[i]);
    assert(t.drop_first() =~= s.skip(i + 1));
    vstd::utf8::char_is_scalar(t[0]);
    let head = vstd::utf8::encode_scalar(t[0] as u32);
    assert(head.len() == width(t[0]));
    assert(vstd::utf8::encode_utf8(t) == head + vstd::utf8::encode_utf8(t.drop_first()));
}

pub proof fn byte_len_adds(a: Seq<char>, b: Seq<char>)
    ensures
        byte_len(a + b) == byte_len(a) + byte_len(b),
    decreases a.len(),
{
    if a.len() == 0 {
        assert(a + b =~= b);
    } else {
        byte_len_adds(a.drop_first(), b);
        assert((a + b).drop_first() =~= a.drop_first() + b);
    }
}

fn width_of(c: char) -> (n: usize)
    ensures
        n == width(c),
        1 <= n <= 4,
{
    let v: u32 = c as u32;
    if v < 0x80 {
        1
    } else if v < 0x800 {
        2
    } else if v < 0x10000 {
        3
    } else {
        4
    }
}

/// From `k` on, the longest end of `s` that takes at most `max` bytes.
pub open spec fn is_end_within(s: Seq<char>, max: int, k: int) -> bool {
    &&& 0 <= k <= s.len()
    &&& byte_len(s.skip(k)) <= max
    &&& k > 0 ==> byte_len(s.skip(k - 1)) > max
}

/// The longest end of `s` that takes at most `max` bytes.
pub open spec fn end_within(s: Seq<char>, max: int) -> Seq<char> {
    s.skip(choose|k: int| is_end_within(s, max, k))
}

proof fn shorter_ends(s: Seq<char>, i: int, j: int)
    requires
        0 <= i <= j <= s.len(),
    ensures
        byte_len(s.skip(j)) <= byte_len(s.skip(i)),
    decreases j - i,
{
    if i < j {
        byte_len_step(s, i);
        shorter_ends(s, i + 1, j);
    }
}

proof fn one_end_within(s: Seq<char>, max: int, k: int)
    requires
        is_end_within(s, max, k),
    ensures
        end_within(s, max) == s.skip(k),
{
    let j = choose|j: int| is_end_within(s, max, j);
    if j < k {
        shorter_ends(s, j, k - 1);
    }
    if k < j {
        shorter_ends(s, k, j - 1);
    }
}

/// The longest end that takes at most `max` bytes does take at most that many.
pub proof fn end_within_fits(s: Seq<char>, max: int)
    requires
        0 <= max,
    ensures
        byte_len(end_within(s, max)) <= max,
{
    assert(s.skip(s.len() as int) =~= Seq::<char>::empty());
    let k = last_fitting(s, max, s.len() as int);
    one_end_within(s, max, k);
}

proof fn last_fitting(s: Seq<char>, max: int, k: int) -> (r: int)
    requires
        0 <= k <= s.len(),
        byte_len(s.skip(k)) <= max,
    ensures
        is_end_within(s, max, r),
    decreases k,
{
    if k > 0 && byte_len(s.skip(k - 1)) <= max {
        last_fitting(s, max, k - 1)
    } else {
        k
    }
}

/// Where the longest end that takes at most `max` bytes starts.
pub fn find_end_within(v: &Vec<char>, max: usize) -> (k: usize)
    ensures
        is_end_within(v@, max as int, k as int),
        v@.skip(k as int) == end_within(v@, max as int),
{
    let mut k: usize = v.len();
    let mut used: usize = 0;
    assert(v@.skip(v@.len() as int) =~= Seq::<char>::empty());
    while k > 0 && width_of(v[k - 1]) <= max - used
        invariant
            k <= v.len(),
            used <= max,
            used == byte_len(v@.skip(k as int)),
        decreases k,
    {
        proof {
            byte_len_step(v@, k - 1);
        }
        used = used + width_of(v[k - 1]);
        k -= 1;
    }
    proof {
        if k > 0 {
            byte_len_step(v@, k - 1);
        }
        one_end_within(v@, max as int, k as int);
    }
    k
}

/// Up to `k`, the longest start of `s` that takes at most `max` bytes.
pub open spec fn is_start_within(s: Seq<char>, max: int, k: int) -> bool {
    &&& 0 <= k <= s.len()
    &&& byte_len(s.take(k)) <= max
    &&& k < s.len() ==> byte_len(s.take(k + 1)) > max
}

/// How many characters the longest start of `s` has that takes at most `max`
/// bytes.
pub open spec fn start_within(s: Seq<char>, max: int) -> int {
    choose|k: int| is_start_within(s, max, k)
}

proof fn longer_starts(s: Seq<char>, i: int, j: int)
    requires
        0 <= i <= j <= s.len(),
    ensures
        byte_len(s.take(i)) <= byte_len(s.take(j)),
{
    assert(s.take(j) =~= s.take(i) + s.subrange(i, j));
    byte_len_adds(s.take(i), s.subrange(i, j));
}

proof fn one_start_within(s: Seq<char>, max: int, k: int)
    requires
        is_start_within(s, max, k),
    ensures
        start_within(s, max) == k,
{
    let j = choose|j: int| is_start_within(s, max, j);
    if j < k {
        longer_starts(s, j + 1, k);
    }
    if k < j {
        longer_starts(s, k + 1, j);
    }
}

/// The longest start that takes at most `max` bytes does take at most that many.
pub proof fn start_within_fits(s: Seq<char>, max: int)
    requires
        0 <= max,
    ensures
        0 <= start_within(s, max) <= s.len(),
        byte_len(s.take(start_within(s, max))) <= max,
{
    assert(s.take(0) =~= Seq::<char>::empty());
    let k = first_fitting(s, max, 0);
    one_start_within(s, max, k);
}

proof fn first_fitting(s: Seq<char>, max: int, k: int) -> (r: int)
    requires
        0 <= k <= s.len(),
        byte_len(s.take(k)) <= max,
    ensures
        is_start_within(s, max, r),
    decreases s.len() - k,
{
    if k < s.len() && byte_len(s.take(k + 1)) <= max {
        first_fitting(s, max, k + 1)
    } else {
        k
    }
}

/// Where the longest start that takes at most `max` bytes ends.
pub fn find_start_within(v: &Vec<char>, max: usize) -> (k: usize)
    ensures
        is_start_within(v@, max as int, k as int),
        k == start_within(v@, max as int),
{
    let mut k: usize = 0;
    let mut used: usize = 0;
    assert(v@.take(0) =~= Seq::<char>::empty());
    while k < v.len() && width_of(v[k]) <= max - used
        invariant
            k <= v.len(),
            used <= max,
            used == byte_len(v@.take(k as int)),
        decreases v.len() - k,
    {
        proof {
            one_more(v@, k as int);
        }
        used = used + width_of(v[k]);
        k += 1;
    }
    proof {
        if k < v.len() {
            one_more(v@, k as int);
        }
        one_start_within(v@, max as int, k as int);
    }
    k
}

proof fn one_more(s: Seq<char>, k: int)
    requires
        0 <= k < s.len(),
    ensures
        byte_len(s.take(k + 1)) == byte_len(s.take(k)) + width(s[k]),
{
    let one = seq![s[k]];
    assert(s.take(k + 1) =~= s.take(k) + one);
    byte_len_adds(s.take(k), one);
    assert(one.skip(0) =~= one);
    assert(one.skip(1) =~= Seq::<char>::empty());
    byte_len_step(one, 0);
}

/// How many bytes the characters from `k` on take.
pub fn bytes_from(v: &Vec<char>, k: usize) -> (n: u128)
    requires
        k <= v@.len(),
    ensures
        n == byte_len(v@.skip(k as int)),
{
    let mut i: usize = v.len();
    let mut n: u128 = 0;
    assert(v@.skip(v@.len() as int) =~= Seq::<char>::empty());
    while i > k
        invariant
            k <= i <= v.len(),
            n == byte_len(v@.skip(i as int)),
            n <= 4 * (v.len() - i),
        decreases i,
    {
        proof {
            byte_len_step(v@, i - 1);
        }
        n = n + width_of(v[i - 1]) as u128;
        i -= 1;
    }
    n
}

/// A line without a carriage return behind.
pub open spec fn drop_return(line: Seq<char>) -> Seq<char> {
    if line.len() > 0 && line.last() == '\r' {
        line.drop_last()
    } else {
        line
    }
}

/// The lines of a text, without what ends them. A last line counts only where
/// it holds something.
pub open spec fn lines_of(s: Seq<char>) -> Seq<Seq<char>> {
    let parts = pieces(s, |c: char| c == '\n');
    let ended = parts.drop_last().map_values(|line: Seq<char>| drop_return(line));
    if parts.last().len() > 0 {
        ended.push(parts.last())
    } else {
        ended
    }
}

fn breaks_line(c: char) -> (b: bool)
    ensures
        b == (c == '\n'),
{
    c == '\n'
}

pub fn lines(s: &str) -> (r: Vec<String>)
    ensures
        texts(r@) == lines_of(s@),
{
    let ghost sep = |c: char| c == '\n';
    let parts = split_pieces(s, breaks_line, Ghost(sep));
    let ghost all = pieces(s@, sep);
    proof {
        pieces_never_none(s@, sep);
        assert(texts(parts@).len() == parts@.len());
    }
    let ghost f = |line: Seq<char>| drop_return(line);
    let mut r: Vec<String> = Vec::new();
    let mut i: usize = 0;
    while i < parts.len() - 1
        invariant
            i <= parts.len() - 1,
            parts.len() >= 1,
            texts(parts@) == all,
            f == |line: Seq<char>| drop_return(line),
            texts(r@) == all.drop_last().map_values(f).take(i as int),
        decreases parts.len() - 1 - i,
    {
        let v = chars_of(parts[i].as_str());
        assert(all[i as int] == parts@[i as int]@);
        let line = if v.len() > 0 && v[v.len() - 1] == '\r' {
            let t = text_of(&v, 0, v.len() - 1);
            assert(t@ =~= all[i as int].drop_last());
            t
        } else {
            parts[i].clone()
        };
        proof {
            texts_push(r@, line);
            assert(all.drop_last().map_values(f).take(i + 1) =~= all.drop_last().map_values(f).take(
                i as int,
            ).push(line@));
        }
        r.push(line);
        i += 1;
    }
    proof {
        assert(all.drop_last().map_values(f).take(i as int) =~= all.drop_last().map_values(f));
        assert(all.last() == parts@[i as int]@);
    }
    if !parts[i].as_str().is_empty() {
        let line = parts[i].clone();
        proof {
            texts_push(r@, line);
        }
        r.push(line);
    }
    r
}

/// The words of a text: what stands between white space.
pub open spec fn words_of(s: Seq<char>) -> Seq<Seq<char>> {
    pieces(s, |c: char| is_space(c)).filter(|w: Seq<char>| w.len() > 0)
}

pub fn words(s: &str) -> (r: Vec<String>)
    ensures
        texts(r@) == words_of(s@),
{
    let ghost sep = |c: char| is_space(c);
    let ghost solid = |w: Seq<char>| w.len() > 0;
    let parts = split_pieces(s, is_white, Ghost(sep));
    let ghost all = pieces(s@, sep);
    let mut r: Vec<String> = Vec::new();
    let mut i: usize = 0;
    proof {
        crate::order::filter_none(all, solid);
        assert(texts(r@) =~= all.take(0).filter(solid));
    }
    while i < parts.len()
        invariant
            i <= parts.len(),
            texts(parts@) == all,
            solid == |w: Seq<char>| w.len() > 0,
            texts(r@) == all.take(i as int).filter(solid),
        decreases parts.len() - i,
    {
        proof {
            assert(all[i as int] == parts@[i as int]@);
            crate::order::filter_step(all, solid, i as int);
        }
        if !parts[i].as_str().is_empty() {
            let word = parts[i].clone();
            proof {
                texts_push(r@, word);
            }
            r.push(word);
        }
        i += 1;
    }
    assert(all.take(i as int) =~= all);
    r
}

/// `i` is the first place where `p` stands in `s`.
pub open spec fn is_first_place(s: Seq<char>, p: Seq<char>, i: int) -> bool {
    &&& 0 <= i <= s.len()
    &&& begins(s.skip(i), p)
    &&& forall|k: int| 0 <= k < i ==> !begins(#[trigger] s.skip(k), p)
}

/// The parts of `s` between one occurrence of `p` and the next.
pub open spec fn parts_between(s: Seq<char>, p: Seq<char>) -> Seq<Seq<char>>
    decreases s.len(),
{
    if p.len() == 0 || !holds(s, p) {
        seq![s]
    } else {
        let i = choose|i: int| is_first_place(s, p, i);
        if 0 <= i && i + p.len() <= s.len() {
            seq![s.take(i)] + parts_between(s.skip(i + p.len()), p)
        } else {
            seq![s]
        }
    }
}

pub fn split_text(s: &str, p: &str) -> (r: Vec<String>)
    requires
        p@.len() > 0,
    ensures
        texts(r@) == parts_between(s@, p@),
{
    let v = chars_of(s);
    let q = chars_of(p);
    let mut r: Vec<String> = Vec::new();
    let mut from: usize = 0;
    let mut i: usize = 0;
    proof {
        assert(v@.skip(0) =~= v@);
        assert(texts(r@) + parts_between(v@, q@) =~= parts_between(v@, q@));
    }
    while i < v.len()
        invariant
            from <= i <= v.len(),
            q@.len() > 0,
            v@ == s@,
            q@ == p@,
            forall|k: int|
                0 <= k < i - from ==> !begins(#[trigger] v@.skip(from as int).skip(k), q@),
            texts(r@) + parts_between(v@.skip(from as int), q@) == parts_between(s@, p@),
        decreases v.len() - i,
    {
        let ghost rest = v@.skip(from as int);
        assert(rest.skip(i - from) =~= v@.skip(i as int));
        if stands_at(&v, i, &q) {
            let part = text_of(&v, from, i);
            proof {
                assert(is_first_place(rest, q@, i - from));
                let j = choose|j: int| is_first_place(rest, q@, j);
                if j < i - from {
                    assert(!begins(rest.skip(j), q@));
                }
                if i - from < j {
                    assert(!begins(rest.skip(i - from), q@));
                }
                assert(holds(rest, q@));
                assert(part@ =~= rest.take(i - from));
                assert(rest.skip(i - from + q@.len()) =~= v@.skip(i + q@.len()));
                texts_push(r@, part);
                assert(texts(r@) + (seq![part@] + parts_between(v@.skip(i + q@.len()), q@))
                    =~= texts(r@).push(part@) + parts_between(v@.skip(i + q@.len()), q@));
            }
            r.push(part);
            i = i + q.len();
            from = i;
        } else {
            i += 1;
        }
    }
    let part = text_of(&v, from, v.len());
    proof {
        let rest = v@.skip(from as int);
        assert(part@ =~= rest);
        if holds(rest, q@) {
            let k = choose|k: int| 0 <= k <= rest.len() && begins(#[trigger] rest.skip(k), q@);
            assert(false);
        }
        texts_push(r@, part);
        assert(texts(r@) + seq![part@] =~= texts(r@).push(part@));
    }
    r.push(part);
    r
}

/// The number that a text stands for: decimal digits, perhaps behind a plus
/// sign, of a value that fits in 64 bits.
pub open spec fn u64_in(s: Seq<char>) -> Option<int> {
    let d = if begins(s, "+"@) {
        s.skip(1)
    } else {
        s
    };
    if d.len() > 0 && all_digits(d) && digits_number(d) <= u64::MAX {
        Some(digits_number(d))
    } else {
        None
    }
}

pub fn parse_u64(s: &str) -> (r: Option<u64>)
    ensures
        match r {
            Some(n) => u64_in(s@) == Some(n as int),
            None => u64_in(s@) is None,
        },
{
    proof {
        reveal_strlit("+");
    }
    let v = chars_of(s);
    let from: usize = if starts_with(s, "+") {
        1
    } else {
        0
    };
    assert(v@.subrange(from as int, v@.len() as int) =~= if from == 1 {
        s@.skip(1)
    } else {
        s@
    });
    if from == v.len() {
        return None;
    }
    digits_in(&v, from, v.len())
}

/// How many characters of `s` come before the first one for which `p` holds;
/// all of them where there is none.
pub open spec fn find_first(s: Seq<char>, p: spec_fn(char) -> bool) -> int
    decreases s.len(),
{
    if s.len() == 0 || p(s[0]) {
        0
    } else {
        1 + find_first(s.drop_first(), p)
    }
}

pub proof fn find_first_bounds(s: Seq<char>, p: spec_fn(char) -> bool)
    ensures
        0 <= find_first(s, p) <= s.len(),
    decreases s.len(),
{
    if s.len() > 0 {
        find_first_bounds(s.drop_first(), p);
    }
}

/// Finds the first character from `from` up to `to` for which `test` holds.
pub(crate) fn find_char<F: Fn(char) -> bool>(
    v: &Vec<char>,
    from: usize,
    to: usize,
    test: F,
    Ghost(p): Ghost<spec_fn(char) -> bool>,
) -> (i: usize)
    requires
        from <= to <= v@.len(),
        forall|c: char| #[trigger] test.requires((c,)),
        forall|c: char, b: bool| #[trigger] test.ensures((c,), b) ==> b == p(c),
    ensures
        from <= i <= to,
        i == from + find_first(v@.subrange(from as int, to as int), p),
        i < to ==> p(v@[i as int]),
{
    let mut i: usize = from;
    while i < to && !test(v[i])
        invariant
            from <= i <= to <= v@.len(),
            forall|c: char| #[trigger] test.requires((c,)),
            forall|c: char, b: bool| #[trigger] test.ensures((c,), b) ==> b == p(c),
            from + find_first(v@.subrange(from as int, to as int), p) == i + find_first(
                v@.subrange(i as int, to as int),
                p,
            ),
        decreases to - i,
    {
        proof {
            let rest = v@.subrange(i as int, to as int);
            assert(rest[0] == v@[i as int]);
            assert(rest.drop_first() =~= v@.subrange(i + 1, to as int));
        }
        i += 1;
    }
    proof {
        let rest = v@.subrange(i as int, to as int);
        if i < to {
            assert(rest[0] == v@[i as int]);
        }
    }
    i
}

proof fn left_trim_skips(s: Seq<char>) -> (k: int)
    ensures
        0 <= k <= s.len(),
        trim_left(s) == s.skip(k),
        forall|j: int| 0 <= j < k ==> is_space(#[trigger] s[j]),
        k < s.len() ==> !is_space(s[k]),
    decreases s.len(),
{
    if s.len() > 0 && is_space(s[0]) {
        let k = left_trim_skips(s.drop_first());
        assert(s.drop_first().skip(k) =~= s.skip(k + 1));
        assert forall|j: int| 0 <= j < k + 1 implies is_space(#[trigger] s[j]) by {
            if j > 0 {
                assert(s.drop_first()[j - 1] == s[j]);
            }
        }
        k + 1
    } else {
        assert(s.skip(0) =~= s);
        0
    }
}

/// What is left of a text without the white space at its end.
pub proof fn right_trim_takes(s: Seq<char>) -> (k: int)
    ensures
        0 <= k <= s.len(),
        trim_right(s) == s.take(k),
        forall|j: int| k <= j < s.len() ==> is_space(#[trigger] s[j]),
        k > 0 ==> !is_space(s[k - 1]),
    decreases s.len(),
{
    if s.len() > 0 && is_space(s.last()) {
        let k = right_trim_takes(s.drop_last());
        assert(s.drop_last().take(k) =~= s.take(k));
        assert forall|j: int| k <= j < s.len() implies is_space(#[trigger] s[j]) by {
            if j < s.len() - 1 {
                assert(s.drop_last()[j] == s[j]);
            }
        }
        if k > 0 {
            assert(s.drop_last()[k - 1] == s[k - 1]);
        }
        k
    } else {
        assert(s.take(s.len() as int) =~= s);
        s.len() as int
    }
}

/// Trimming takes white space off both ends and nothing else: what is left is a
/// stretch of the text, white space is around it, and it neither starts nor stops
/// with any.
pub proof fn trimming_takes_the_edges(s: Seq<char>) -> (edges: (int, int))
    ensures
        0 <= edges.0 <= edges.1 <= s.len(),
        trimmed(s) == s.subrange(edges.0, edges.1),
        forall|j: int| 0 <= j < edges.0 || edges.1 <= j < s.len() ==> is_space(#[trigger] s[j]),
        edges.0 < edges.1 ==> !is_space(s[edges.0]) && !is_space(s[edges.1 - 1]),
{
    let a = left_trim_skips(s);
    let rest = s.skip(a);
    let n = right_trim_takes(rest);
    let b = a + n;
    assert(rest.take(n) =~= s.subrange(a, b));
    assert forall|j: int| 0 <= j < a || b <= j < s.len() implies is_space(#[trigger] s[j]) by {
        if b <= j {
            assert(rest[j - a] == s[j]);
        }
    }
    if n > 0 {
        assert(rest[n - 1] == s[b - 1]);
    }
    (a, b)
}

/// A letter is never trimmed away.
pub proof fn trimming_keeps_the_rest(s: Seq<char>, i: int)
    requires
        0 <= i < s.len(),
        'a' <= s[i] <= 'z' || 'A' <= s[i] <= 'Z' || '0' <= s[i] <= '9',
    ensures
        trimmed(s).len() > 0,
        trimmed(s).contains(s[i]),
{
    let (a, b) = trimming_takes_the_edges(s);
    assert(!is_space(s[i]));
    assert(trimmed(s)[i - a] == s[i]);
}

/// Blanks, tabs and line ends are white space; letters, digits and the signs of
/// commands are not.
pub proof fn white_space_is_blank(c: char)
    ensures
        c == ' ' || c == '\t' || c == '\n' || c == '\r' ==> is_space(c),
        '!' <= c <= '~' ==> !is_space(c),
{
}

/// Pieces put together again, with what separates them, are the text: a separator
/// parts what is before it from what is after it.
pub proof fn pieces_part_at_separators(
    a: Seq<char>,
    c: char,
    b: Seq<char>,
    sep: spec_fn(char) -> bool,
)
    requires
        sep(c),
    ensures
        pieces(a.push(c) + b, sep) == pieces(a, sep) + pieces(b, sep),
    decreases b.len(),
{
    let s = a.push(c) + b;
    pieces_never_none(a, sep);
    if b.len() == 0 {
        assert(s =~= a.push(c));
        assert(s.drop_last() =~= a);
        assert(pieces(s, sep) =~= pieces(a, sep) + pieces(b, sep));
    } else {
        let front = b.drop_last();
        pieces_part_at_separators(a, c, front, sep);
        pieces_never_none(front, sep);
        assert(s.drop_last() =~= a.push(c) + front);
        assert(s.last() == b.last());
        let x = pieces(a, sep);
        let y = pieces(front, sep);
        assert((x + y).last() == y.last());
        assert((x + y).drop_last() =~= x + y.drop_last());
        assert(pieces(s, sep) =~= x + pieces(b, sep));
    }
}

/// A text without separators is one piece.
pub proof fn whole_texts_are_one_piece(s: Seq<char>, sep: spec_fn(char) -> bool)
    requires
        forall|i: int| 0 <= i < s.len() ==> !sep(#[trigger] s[i]),
    ensures
        pieces(s, sep) == seq![s],
    decreases s.len(),
{
    if s.len() == 0 {
        assert(s =~= Seq::<char>::empty());
    } else {
        let front = s.drop_last();
        assert forall|i: int| 0 <= i < front.len() implies !sep(#[trigger] front[i]) by {
            assert(front[i] == s[i]);
        }
        whole_texts_are_one_piece(front, sep);
        assert(front.push(s.last()) =~= s);
        assert(pieces(s, sep) =~= seq![s]);
    }
}

/// Decimal numbers are read back as what was written, and hold digits only.
pub proof fn decimals_read_back(n: int)
    requires
        0 <= n,
    ensures
        decimal(n).len() > 0,
        all_digits(decimal(n)),
        digits_number(decimal(n)) == n,
    decreases n,
{
    reveal_with_fuel(digits_number, 2);
    if n < 10 {
        assert(decimal(n).drop_last() =~= Seq::<char>::empty());
    } else {
        decimals_read_back(n / 10);
        let front = decimal(n / 10);
        let all = front.push(digit_char(n % 10));
        assert(all.drop_last() =~= front);
        assert forall|i: int| 0 <= i < all.len() implies is_digit(#[trigger] all[i]) by {
            if i < front.len() {
                assert(all[i] == front[i]);
            }
        }
    }
}

/// Different numbers are written differently.
pub proof fn decimals_differ(a: int, b: int)
    requires
        0 <= a,
        0 <= b,
        decimal(a) == decimal(b),
    ensures
        a == b,
{
    decimals_read_back(a);
    decimals_read_back(b);
}

/// A text falls into lines at its line feeds: what stands before the first one is the first
/// line, without a carriage return at its end, and the rest goes on with the next. What no
/// line feed ends is a line unless it is empty.
pub proof fn lines_end_at_line_feeds(a: Seq<char>, b: Seq<char>)
    requires
        forall|i: int| 0 <= i < a.len() ==> #[trigger] a[i] != '\n',
    ensures
        lines_of(a.push('\n') + b) == seq![
            if a.len() > 0 && a.last() == '\r' {
                a.drop_last()
            } else {
                a
            },
        ] + lines_of(b),
        lines_of(a) == if a.len() > 0 {
            seq![a]
        } else {
            Seq::empty()
        },
{
    let sep = |c: char| c == '\n';
    whole_texts_are_one_piece(a, sep);
    pieces_part_at_separators(a, '\n', b, sep);
    pieces_never_none(b, sep);
    let f = |line: Seq<char>| drop_return(line);
    let parts = pieces(b, sep);
    let all = seq![a] + parts;
    assert(pieces(a.push('\n') + b, sep) =~= all);
    assert(all.drop_last() =~= seq![a] + parts.drop_last());
    assert(all.drop_last().map_values(f) =~= seq![drop_return(a)] + parts.drop_last().map_values(f));
    assert(all.last() == parts.last());
    if a.len() > 0 {
        assert(a.take(a.len() - 1) =~= a.drop_last());
    }
    assert(lines_of(a.push('\n') + b) =~= seq![drop_return(a)] + lines_of(b));
    assert(seq![a].drop_last().map_values(f) =~= Seq::<Seq<char>>::empty());
    if a.len() > 0 {
        assert(lines_of(a) =~= seq![a]);
    } else {
        assert(lines_of(a) =~= Seq::<Seq<char>>::empty());
    }
}

/// A text falls into words at its blanks: what stands around one are the words of both
/// sides, and what has no blank in it is one word unless it is empty.
pub proof fn words_end_at_blanks(a: Seq<char>, c: char, b: Seq<char>)
    requires
        is_space(c),
    ensures
        words_of(a.push(c) + b) == words_of(a) + words_of(b),
        (forall|i: int| 0 <= i < a.len() ==> !is_space(#[trigger] a[i])) ==> words_of(a)
            == if a.len() > 0 {
            seq![a]
        } else {
            Seq::empty()
        },
{
    let sep = |c: char| is_space(c);
    let p = |w: Seq<char>| w.len() > 0;
    pieces_part_at_separators(a, c, b, sep);
    let x = pieces(a, sep);
    let y = pieces(b, sep);
    Seq::filter_distributes_over_add(x, y, p);
    if forall|i: int| 0 <= i < a.len() ==> !is_space(#[trigger] a[i]) {
        whole_texts_are_one_piece(a, sep);
        reveal(Seq::filter);
        let none = Seq::<Seq<char>>::empty();
        assert(seq![a].drop_last() =~= none);
        assert(none.filter(p) =~= none);
        assert(words_of(a) =~= if a.len() > 0 {
            seq![a]
        } else {
            none
        });
    }
}

/// A character of ASCII takes one byte, so as many of them as there are bytes fit.
pub proof fn plain_characters_take_a_byte(a: Seq<char>, b: Seq<char>)
    requires
        forall|i: int| 0 <= i < a.len() ==> (#[trigger] a[i] as u32) < 0x80,
    ensures
        byte_len(a) == a.len(),
        start_within(a + b, a.len() as int) == a.len(),
    decreases a.len(),
{
    plain_bytes(a, a.len() as int);
    let s = a + b;
    let n = a.len() as int;
    assert(a.take(n) =~= a);
    assert(s.take(n) =~= a);
    if n < s.len() {
        assert(s.take(n + 1) =~= a + seq![s[n]]);
        byte_len_adds(a, seq![s[n]]);
        let last = seq![s[n]];
        byte_len_step(last, 0);
        assert(last.skip(0) =~= last);
    }
    one_start_within(s, n, n);
}

proof fn plain_bytes(a: Seq<char>, n: int)
    requires
        0 <= n <= a.len(),
        forall|i: int| 0 <= i < a.len() ==> (#[trigger] a[i] as u32) < 0x80,
    ensures
        byte_len(a.take(n)) == n,
    decreases n,
{
    if n > 0 {
        plain_bytes(a, n - 1);
        let last = seq![a[n - 1]];
        assert(a.take(n) =~= a.take(n - 1) + last);
        byte_len_adds(a.take(n - 1), last);
        byte_len_step(last, 0);
        assert((a[n - 1] as u32) < 0x80);
        assert(last[0] == a[n - 1]);
        assert(byte_len(Seq::<char>::empty()) == 0);
        assert(last.skip(0) =~= last);
        assert(last.skip(1) =~= Seq::<char>::empty());
        assert(width(last[0]) == 1);
        assert(byte_len(last.skip(1)) == 0);
        assert(byte_len(last.skip(0)) == 1);
        assert(byte_len(last) == 1);
    } else {
        assert(a.take(0) =~= Seq::<char>::empty());
        assert(byte_len(Seq::<char>::empty()) == 0);
    }
}

/// Where no character is marked, none is the first.
pub proof fn nothing_is_found(s: Seq<char>, p: spec_fn(char) -> bool)
    requires
        forall|i: int| 0 <= i < s.len() ==> !p(#[trigger] s[i]),
    ensures
        find_first(s, p) == s.len(),
    decreases s.len(),
{
    if s.len() > 0 {
        let t = s.drop_first();
        assert forall|i: int| 0 <= i < t.len() implies !p(#[trigger] t[i]) by {
            assert(t[i] == s[i + 1]);
        }
        nothing_is_found(t, p);
    }
}

/// A marked character behind others that are not marked is the first.
pub proof fn first_is_found(a: Seq<char>, c: char, b: Seq<char>, p: spec_fn(char) -> bool)
    requires
        forall|i: int| 0 <= i < a.len() ==> !p(#[trigger] a[i]),
        p(c),
    ensures
        find_first(a + seq![c] + b, p) == a.len(),
    decreases a.len(),
{
    let s = a + seq![c] + b;
    if a.len() == 0 {
        assert(s[0] == c);
    } else {
        let t = a.drop_first();
        assert(s[0] == a[0]);
        assert forall|i: int| 0 <= i < t.len() implies !p(#[trigger] t[i]) by {
            assert(t[i] == a[i + 1]);
        }
        first_is_found(t, c, b, p);
        assert(s.drop_first() =~= t + seq![c] + b);
    }
}

/// A number that was written in decimal is read as that number where there is room for it,
/// with a plus sign before it as well. Anything that is not made of digits is refused.
pub proof fn counts_read_back(n: u64, s: Seq<char>, i: int)
    ensures
        u64_in(decimal(n as int)) == Some(n as int),
        u64_in("+"@ + decimal(n as int)) == Some(n as int),
        1 <= i < s.len() && !is_digit(s[i]) ==> u64_in(s) is None,
        s.len() == 0 ==> u64_in(s) is None,
{
    decimals_read_back(n as int);
    reveal_strlit("+");
    let d = decimal(n as int);
    assert(is_digit(d[0]));
    assert(d.take(1)[0] == d[0]);
    let e = "+"@ + d;
    assert(e.take(1) =~= "+"@);
    assert(e.skip(1) =~= d);
    if 1 <= i < s.len() && !is_digit(s[i]) {
        let rest = s.skip(1);
        assert(rest[i - 1] == s[i]);
    }
}

/// A number is written with a minus sign when it is below zero and only then, and its digits
/// are those of its size.
pub proof fn signed_numbers_read_back(n: int)
    ensures
        n < 0 <==> signed(n)[0] == '-',
        n < 0 ==> digits_number(signed(n).skip(1)) == -n && all_digits(signed(n).skip(1)),
        n >= 0 ==> digits_number(signed(n)) == n && all_digits(signed(n)),
{
    reveal_strlit("-");
    if n < 0 {
        decimals_read_back(-n);
        assert(signed(n).skip(1) =~= decimal(-n));
    } else {
        decimals_read_back(n);
        assert(is_digit(decimal(n)[0]));
    }
}

proof fn one_first_place(s: Seq<char>, p: Seq<char>)
    requires
        holds(s, p),
    ensures
        exists|i: int| is_first_place(s, p, i),
{
    let i = choose|i: int| 0 <= i <= s.len() && begins(#[trigger] s.skip(i), p);
    least_place(s, p, i);
}

proof fn least_place(s: Seq<char>, p: Seq<char>, i: int)
    requires
        0 <= i <= s.len(),
        begins(s.skip(i), p),
    ensures
        exists|k: int| is_first_place(s, p, k),
    decreases i,
{
    if forall|k: int| 0 <= k < i ==> !begins(#[trigger] s.skip(k), p) {
        assert(is_first_place(s, p, i));
    } else {
        let k = choose|k: int| 0 <= k < i && begins(#[trigger] s.skip(k), p);
        least_place(s, p, k);
    }
}

proof fn joining_from_the_front(first: Seq<char>, rest: Seq<Seq<char>>, sep: Seq<char>)
    requires
        rest.len() > 0,
    ensures
        join(seq![first] + rest, sep) == first + sep + join(rest, sep),
    decreases rest.len(),
{
    let all = seq![first] + rest;
    assert(all.drop_last() =~= seq![first] + rest.drop_last());
    if rest.len() == 1 {
        assert(all.drop_last() =~= seq![first]);
        assert(join(seq![first], sep) == first);
        assert(join(all, sep) =~= first + sep + rest[0]);
    } else {
        joining_from_the_front(first, rest.drop_last(), sep);
        assert(join(all, sep) =~= first + sep + join(rest, sep));
    }
}

/// Parts that are put together again, with what parts them in between, are the text they
/// came from.
pub proof fn parts_make_up_the_text(s: Seq<char>, p: Seq<char>)
    ensures
        parts_between(s, p).len() > 0,
        join(parts_between(s, p), p) == s,
        p.len() > 0 && holds(s, p) ==> parts_between(s, p).len() > 1,
        !holds(s, p) ==> parts_between(s, p) == seq![s],
    decreases s.len(),
{
    if p.len() > 0 && holds(s, p) {
        one_first_place(s, p);
        let i = choose|i: int| is_first_place(s, p, i);
        let rest = s.skip(i + p.len());
        assert(s.skip(i).len() >= p.len());
        parts_make_up_the_text(rest, p);
        joining_from_the_front(s.take(i), parts_between(rest, p), p);
        assert(s.skip(i).take(p.len() as int) =~= p);
        assert(s =~= s.take(i) + p + rest);
    }
}

/// What is cut to a number of bytes is what stands at the start, or at the end, of a text,
/// and as many characters of it as there is room for: fewer than four bytes stay unused.
pub proof fn cuts_waste_little(s: Seq<char>, max: int)
    requires
        0 <= max < byte_len(s),
    ensures
        finishes(s, end_within(s, max)),
        max - 4 < byte_len(end_within(s, max)) <= max,
        0 <= start_within(s, max) < s.len(),
        max - 4 < byte_len(s.take(start_within(s, max))) <= max,
{
    assert(s.skip(s.len() as int) =~= Seq::<char>::empty());
    assert(s.skip(0) =~= s);
    let k = last_fitting(s, max, s.len() as int);
    one_end_within(s, max, k);
    assert(k > 0);
    byte_len_step(s, k - 1);
    assert(s.skip(s.len() - s.skip(k).len()) =~= s.skip(k));
    assert(s.take(0) =~= Seq::<char>::empty());
    assert(s.take(s.len() as int) =~= s);
    let j = first_fitting(s, max, 0);
    one_start_within(s, max, j);
    assert(j < s.len());
    let last = seq![s[j]];
    assert(s.take(j + 1) =~= s.take(j) + last);
    byte_len_adds(s.take(j), last);
    byte_len_step(last, 0);
    assert(last.skip(0) =~= last);
    assert(last.skip(1) =~= Seq::<char>::empty());
}

} // verus!
