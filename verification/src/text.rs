//! Character-level text helpers with exact specifications.
//!
//! Every helper works on the character sequence of a string (`s@`) and is
//! specified by a spec function of the same shape as the std operation it
//! stands for (`str::trim`, `str::split`, `str::lines`, ...).
use vstd::prelude::*;

verus! {

pub assume_specification[ String::push ](s: &mut String, ch: char)
    ensures
        final(s)@ == old(s)@.push(ch),
;

/// Unicode `White_Space`, the property that `char::is_whitespace` tests.
pub open spec fn is_ws(c: char) -> bool {
    ||| '\u{9}' <= c <= '\u{d}'
    ||| c == ' '
    ||| c == '\u{85}'
    ||| c == '\u{a0}'
    ||| c == '\u{1680}'
    ||| '\u{2000}' <= c <= '\u{200a}'
    ||| c == '\u{2028}'
    ||| c == '\u{2029}'
    ||| c == '\u{202f}'
    ||| c == '\u{205f}'
    ||| c == '\u{3000}'
}

pub fn is_whitespace_char(c: char) -> (b: bool)
    ensures
        b == is_ws(c),
{
    ('\u{9}' <= c && c <= '\u{d}') || c == ' ' || c == '\u{85}' || c == '\u{a0}' || c == '\u{1680}'
        || ('\u{2000}' <= c && c <= '\u{200a}') || c == '\u{2028}' || c == '\u{2029}' || c
        == '\u{202f}' || c == '\u{205f}' || c == '\u{3000}'
}

/// ASCII lower-casing of one character (`char::to_ascii_lowercase`).
pub open spec fn lower_char(c: char) -> char {
    if 'A' <= c <= 'Z' {
        ((c as u32) + 32) as char
    } else {
        c
    }
}

pub open spec fn to_lower(s: Seq<char>) -> Seq<char> {
    s.map_values(|c: char| lower_char(c))
}

pub fn lower_char_exec(c: char) -> (r: char)
    ensures
        r == lower_char(c),
{
    if 'A' <= c && c <= 'Z' {
        ((c as u8) + 32) as char
    } else {
        c
    }
}

/// The characters of `s`, in order.
pub fn chars_of(s: &str) -> (v: Vec<char>)
    ensures
        v@ == s@,
{
    let mut v: Vec<char> = Vec::new();
    for c in it: s.chars()
        invariant
            v@ == it.seq().take(it.index() as int),
    {
        v.push(c);
    }
    v
}

/// A string holding exactly the characters of `v`.
pub fn string_of(v: &[char]) -> (s: String)
    ensures
        s@ == v@,
{
    let mut s = String::new();
    let mut i: usize = 0;
    while i < v.len()
        invariant
            i <= v.len(),
            s@ == v@.take(i as int),
        decreases v.len() - i,
    {
        s.push(v[i]);
        i = i + 1;
        assert(v@.take(i as int) =~= v@.take(i - 1).push(v@[i - 1]));
    }
    assert(v@.take(v.len() as int) =~= v@);
    s
}

pub fn str_eq(a: &str, b: &str) -> (r: bool)
    ensures
        r == (a@ == b@),
{
    a.to_owned() == b.to_owned()
}

pub fn lower_vec(v: &[char]) -> (r: Vec<char>)
    ensures
        r@ == to_lower(v@),
{
    let mut r: Vec<char> = Vec::new();
    let mut i: usize = 0;
    while i < v.len()
        invariant
            i <= v.len(),
            r@ == to_lower(v@.take(i as int)),
        decreases v.len() - i,
    {
        let c = lower_char_exec(v[i]);
        r.push(c);
        i = i + 1;
        assert(to_lower(v@.take(i as int)) =~= to_lower(v@.take(i - 1)).push(lower_char(v@[i - 1])));
    }
    assert(v@.take(v.len() as int) =~= v@);
    r
}

/// `str::to_ascii_lowercase`.
pub fn ascii_lowercase(s: &str) -> (r: String)
    ensures
        r@ == to_lower(s@),
{
    let v = chars_of(s);
    let l = lower_vec(v.as_slice());
    string_of(l.as_slice())
}


/// What separates the pieces in a split: one given character, or any
/// whitespace character.
#[derive(Clone, Copy)]
pub enum Sep {
    Char(char),
    Whitespace,
}

pub open spec fn is_sep(k: Sep, c: char) -> bool {
    match k {
        Sep::Char(d) => c == d,
        Sep::Whitespace => is_ws(c),
    }
}

pub fn is_sep_exec(k: Sep, c: char) -> (b: bool)
    ensures
        b == is_sep(k, c),
{
    match k {
        Sep::Char(d) => c == d,
        Sep::Whitespace => is_whitespace_char(c),
    }
}

/// The pieces of `s` between separators, empty pieces included
/// (`str::split`); there is always at least one piece.
pub open spec fn split_by(s: Seq<char>, k: Sep) -> Seq<Seq<char>>
    decreases s.len(),
{
    if s.len() == 0 {
        seq![Seq::<char>::empty()]
    } else {
        let rest = split_by(s.drop_first(), k);
        if is_sep(k, s[0]) {
            seq![Seq::<char>::empty()] + rest
        } else {
            rest.update(0, seq![s[0]] + rest[0])
        }
    }
}

pub open spec fn prepend_first(cur: Seq<char>, parts: Seq<Seq<char>>) -> Seq<Seq<char>> {
    parts.update(0, cur + parts[0])
}

/// The character sequences of a sequence of strings.
pub open spec fn views(v: Seq<String>) -> Seq<Seq<char>> {
    Seq::new(v.len(), |i: int| v[i]@)
}

pub open spec fn vviews(v: Seq<Vec<char>>) -> Seq<Seq<char>> {
    Seq::new(v.len(), |i: int| v[i]@)
}

pub proof fn lemma_split_nonempty(s: Seq<char>, k: Sep)
    ensures
        split_by(s, k).len() >= 1,
    decreases s.len(),
{
    if s.len() > 0 {
        lemma_split_nonempty(s.drop_first(), k);
    }
}

/// Splitting around one separator splits each side on its own.
pub proof fn lemma_split_concat(a: Seq<char>, d: char, b: Seq<char>, k: Sep)
    requires
        is_sep(k, d),
    ensures
        split_by(a + seq![d] + b, k) == split_by(a, k) + split_by(b, k),
    decreases a.len(),
{
    let whole = a + seq![d] + b;
    if a.len() == 0 {
        assert(whole.drop_first() =~= b);
        assert(whole[0] == d);
        assert(split_by(a, k) =~= seq![Seq::<char>::empty()]);
    } else {
        let a1 = a.drop_first();
        lemma_split_concat(a1, d, b, k);
        assert(whole.drop_first() =~= a1 + seq![d] + b);
        assert(whole[0] == a[0]);
        lemma_split_nonempty(a1, k);
        lemma_split_nonempty(b, k);
        if is_sep(k, a[0]) {
            assert(split_by(whole, k) =~= split_by(a, k) + split_by(b, k));
        } else {
            assert(split_by(whole, k) =~= split_by(a, k) + split_by(b, k));
        }
    }
}

/// A sequence without separators is a single piece.
pub proof fn lemma_split_no_sep(a: Seq<char>, k: Sep)
    requires
        forall|i: int| 0 <= i < a.len() ==> !is_sep(k, #[trigger] a[i]),
    ensures
        split_by(a, k) == seq![a],
    decreases a.len(),
{
    if a.len() > 0 {
        let a1 = a.drop_first();
        assert forall|i: int| 0 <= i < a1.len() implies !is_sep(k, #[trigger] a1[i]) by {
            assert(a1[i] == a[i + 1]);
        }
        lemma_split_no_sep(a1, k);
        assert(seq![a[0]] + a1 =~= a);
        assert(split_by(a, k) =~= seq![a]);
    } else {
        assert(a =~= Seq::<char>::empty());
        assert(split_by(a, k) =~= seq![a]);
    }
}

/// `str::split`, on a character sequence.
pub fn split_vec(s: &[char], k: Sep) -> (r: Vec<Vec<char>>)
    ensures
        vviews(r@) == split_by(s@, k),
{
    let mut pieces: Vec<Vec<char>> = Vec::new();
    let mut cur: Vec<char> = Vec::new();
    let mut i: usize = 0;
    proof {
        lemma_split_nonempty(s@, k);
        assert(s@.skip(0) =~= s@);
        assert(prepend_first(cur@, split_by(s@, k)) =~= split_by(s@, k));
        assert(vviews(pieces@) + split_by(s@, k) =~= split_by(s@, k));
    }
    while i < s.len()
        invariant
            i <= s.len(),
            split_by(s@, k) == vviews(pieces@) + prepend_first(cur@, split_by(s@.skip(i as int), k)),
        decreases s.len() - i,
    {
        let c = s[i];
        let ghost tail = s@.skip(i as int);
        let ghost rest = split_by(s@.skip(i + 1), k);
        proof {
            assert(tail.drop_first() =~= s@.skip(i + 1));
            assert(tail[0] == c);
            lemma_split_nonempty(s@.skip(i + 1), k);
        }
        let ghost old_pieces = pieces@;
        let ghost old_cur = cur@;
        if is_sep_exec(k, c) {
            pieces.push(cur);
            cur = Vec::new();
            proof {
                assert(split_by(tail, k) =~= seq![Seq::<char>::empty()] + rest);
                assert(prepend_first(old_cur, split_by(tail, k)) =~= seq![old_cur] + rest);
                assert(prepend_first(cur@, rest) =~= rest);
                assert(vviews(pieces@) =~= vviews(old_pieces).push(old_cur));
                assert(split_by(s@, k) =~= vviews(pieces@) + prepend_first(cur@, rest));
            }
        } else {
            cur.push(c);
            proof {
                assert(split_by(tail, k) =~= rest.update(0, seq![c] + rest[0]));
                assert(old_cur + (seq![c] + rest[0]) =~= cur@ + rest[0]);
                assert(prepend_first(old_cur, split_by(tail, k)) =~= prepend_first(cur@, rest));
            }
        }
        i = i + 1;
    }
    proof {
        assert(s@.skip(i as int) =~= Seq::<char>::empty());
        assert(prepend_first(cur@, split_by(s@.skip(i as int), k)) =~= seq![cur@]);
    }
    let ghost before = pieces@;
    pieces.push(cur);
    assert(vviews(pieces@) =~= vviews(before).push(pieces@.last()@));
    pieces
}


/// `str::trim_start`: leading whitespace removed.
pub open spec fn trim_start(s: Seq<char>) -> Seq<char>
    decreases s.len(),
{
    if s.len() > 0 && is_ws(s[0]) {
        trim_start(s.drop_first())
    } else {
        s
    }
}

/// `str::trim_end`: trailing whitespace removed.
pub open spec fn trim_end(s: Seq<char>) -> Seq<char>
    decreases s.len(),
{
    if s.len() > 0 && is_ws(s.last()) {
        trim_end(s.drop_last())
    } else {
        s
    }
}

/// `str::trim`.
pub open spec fn trim(s: Seq<char>) -> Seq<char> {
    trim_end(trim_start(s))
}

pub fn trim_vec(s: &[char]) -> (r: Vec<char>)
    ensures
        r@ == trim(s@),
{
    let mut a: usize = 0;
    assert(s@.skip(0) =~= s@);
    while a < s.len() && is_whitespace_char(s[a])
        invariant
            a <= s.len(),
            trim_start(s@) == trim_start(s@.skip(a as int)),
        decreases s.len() - a,
    {
        proof {
            assert(s@.skip(a as int).drop_first() =~= s@.skip(a + 1));
        }
        a = a + 1;
    }
    let ghost t = s@.skip(a as int);
    let mut b: usize = s.len();
    proof {
        assert(trim_start(t) == t);
        assert(t.take((b - a) as int) =~= t);
    }
    while b > a && is_whitespace_char(s[b - 1])
        invariant
            a <= b <= s.len(),
            t == s@.skip(a as int),
            trim_end(t) == trim_end(t.take((b - a) as int)),
        decreases b,
    {
        proof {
            assert(t.take((b - a) as int).drop_last() =~= t.take((b - 1 - a) as int));
            assert(t.take((b - a) as int).last() == s@[b - 1]);
        }
        b = b - 1;
    }
    let mut r: Vec<char> = Vec::new();
    let mut i: usize = a;
    while i < b
        invariant
            a <= i <= b <= s.len(),
            r@ == s@.subrange(a as int, i as int),
        decreases b - i,
    {
        r.push(s[i]);
        i = i + 1;
        assert(r@ =~= s@.subrange(a as int, i as int));
    }
    assert(r@ =~= t.take((b - a) as int));
    r
}

/// `str::trim`, on strings.
pub fn trim_str(s: &str) -> (r: String)
    ensures
        r@ == trim(s@),
{
    let v = chars_of(s);
    let t = trim_vec(v.as_slice());
    string_of(t.as_slice())
}

/// `slice::join` on strings: the parts with `sep` between neighbours.
pub open spec fn join(parts: Seq<Seq<char>>, sep: Seq<char>) -> Seq<char>
    decreases parts.len(),
{
    if parts.len() == 0 {
        Seq::<char>::empty()
    } else if parts.len() == 1 {
        parts[0]
    } else {
        join(parts.drop_last(), sep) + sep + parts.last()
    }
}

pub fn join_strings(parts: &[String], sep: &str) -> (r: String)
    ensures
        r@ == join(views(parts@), sep@),
{
    let mut r = String::new();
    let mut i: usize = 0;
    while i < parts.len()
        invariant
            i <= parts.len(),
            r@ == join(views(parts@).take(i as int), sep@),
        decreases parts.len() - i,
    {
        let ghost prev = views(parts@).take(i as int);
        if i > 0 {
            r.append(sep);
        }
        r.append(parts[i].as_str());
        i = i + 1;
        proof {
            let cur = views(parts@).take(i as int);
            assert(cur.drop_last() =~= prev);
            if i == 1 {
                assert(cur =~= seq![parts@[0]@]);
            }
        }
    }
    assert(views(parts@).take(parts.len() as int) =~= views(parts@));
    r
}

pub open spec fn strip_cr(l: Seq<char>) -> Seq<char> {
    if l.len() > 0 && l.last() == '\r' {
        l.drop_last()
    } else {
        l
    }
}

/// `str::lines`: pieces ended by `\n` (with one `\r` before it dropped);
/// a final line ending is optional and an empty text has no lines.
pub open spec fn lines_of(s: Seq<char>) -> Seq<Seq<char>> {
    if s.len() == 0 {
        Seq::<Seq<char>>::empty()
    } else {
        let p = split_by(s, Sep::Char('\n'));
        let init = p.drop_last().map_values(|l: Seq<char>| strip_cr(l));
        if p.last().len() == 0 {
            init
        } else {
            init.push(p.last())
        }
    }
}

pub fn strip_cr_vec(l: Vec<char>) -> (r: Vec<char>)
    ensures
        r@ == strip_cr(l@),
{
    let mut l = l;
    if l.len() > 0 && l[l.len() - 1] == '\r' {
        l.pop();
    }
    l
}

pub fn lines_vec(s: &[char]) -> (r: Vec<Vec<char>>)
    ensures
        vviews(r@) == lines_of(s@),
{
    let mut out: Vec<Vec<char>> = Vec::new();
    if s.len() == 0 {
        assert(vviews(out@) =~= lines_of(s@));
        return out;
    }
    let pieces = split_vec(s, Sep::Char('\n'));
    let ghost p = split_by(s@, Sep::Char('\n'));
    proof {
        lemma_split_nonempty(s@, Sep::Char('\n'));
    }
    let n = pieces.len();
    let mut i: usize = 0;
    while i + 1 < n
        invariant
            n == pieces.len(),
            n == p.len(),
            n >= 1,
            i + 1 <= n,
            vviews(pieces@) == p,
            vviews(out@) == p.take(i as int).map_values(|l: Seq<char>| strip_cr(l)),
        decreases n - i,
    {
        let piece = pieces[i].clone();
        let stripped = strip_cr_vec(piece);
        let ghost prev = out@;
        out.push(stripped);
        proof {
            assert(pieces@[i as int]@ == p[i as int]);
            assert(vviews(out@) =~= vviews(prev).push(strip_cr(p[i as int])));
            assert(p.take(i + 1).map_values(|l: Seq<char>| strip_cr(l)) =~= p.take(i as int).map_values(
                |l: Seq<char>| strip_cr(l),
            ).push(strip_cr(p[i as int])));
        }
        i = i + 1;
    }
    assert(p.take(i as int) =~= p.drop_last());
    assert(pieces@[n - 1]@ == p.last());
    if pieces[n - 1].len() > 0 {
        let last = pieces[n - 1].clone();
        let ghost prev = out@;
        out.push(last);
        assert(vviews(out@) =~= vviews(prev).push(p.last()));
    }
    out
}

/// `str::lines`, on strings.
pub fn lines_str(s: &str) -> (r: Vec<String>)
    ensures
        views(r@) == lines_of(s@),
{
    let v = chars_of(s);
    let ls = lines_vec(v.as_slice());
    let mut r: Vec<String> = Vec::new();
    let mut i: usize = 0;
    while i < ls.len()
        invariant
            i <= ls.len(),
            views(r@) == vviews(ls@).take(i as int),
        decreases ls.len() - i,
    {
        let ghost prev = r@;
        let st = string_of(ls[i].as_slice());
        assert(st@ == ls@[i as int]@);
        r.push(st);
        i = i + 1;
        assert(views(r@) =~= views(prev).push(st@));
        assert(vviews(ls@).take(i as int) =~= vviews(ls@).take(i - 1).push(ls@[i - 1]@));
    }
    assert(vviews(ls@).take(ls.len() as int) =~= vviews(ls@));
    r
}

/// `p` occurs in `s` at position `i`.
pub open spec fn occurs_at(s: Seq<char>, p: Seq<char>, i: int) -> bool {
    0 <= i && i + p.len() <= s.len() && s.subrange(i, i + p.len()) == p
}

/// `str::contains` with a string pattern.
pub open spec fn has_sub(s: Seq<char>, p: Seq<char>) -> bool {
    exists|i: int| occurs_at(s, p, i)
}

/// Case-blind containment spelled out: the lower-cased text holds the
/// lower-cased pattern exactly when some window of the text, at some
/// position, lower-cases to it.
pub proof fn lemma_lower_contains(s: Seq<char>, q: Seq<char>)
    ensures
        has_sub(to_lower(s), to_lower(q)) <==> exists|i: int|
            0 <= i && i + q.len() <= s.len() && #[trigger] to_lower(s).subrange(i, i + q.len())
                == to_lower(q),
{
    if has_sub(to_lower(s), to_lower(q)) {
        let i = choose|i: int| occurs_at(to_lower(s), to_lower(q), i);
        assert(to_lower(s).subrange(i, i + q.len()) == to_lower(q));
    }
    if exists|i: int|
        0 <= i && i + q.len() <= s.len() && #[trigger] to_lower(s).subrange(i, i + q.len())
            == to_lower(q) {
        let i = choose|i: int|
            0 <= i && i + q.len() <= s.len() && #[trigger] to_lower(s).subrange(i, i + q.len())
                == to_lower(q);
        assert(occurs_at(to_lower(s), to_lower(q), i));
    }
}

/// `str::starts_with`.
pub open spec fn starts_with(s: Seq<char>, p: Seq<char>) -> bool {
    occurs_at(s, p, 0)
}

pub fn occurs_at_exec(s: &[char], p: &[char], i: usize) -> (b: bool)
    ensures
        b == occurs_at(s@, p@, i as int),
{
    if i > s.len() || p.len() > s.len() - i {
        return false;
    }
    let mut j: usize = 0;
    while j < p.len()
        invariant
            i + p.len() <= s.len(),
            j <= p.len(),
            forall|k: int| 0 <= k < j ==> s@[i + k] == p@[k],
        decreases p.len() - j,
    {
        if s[i + j] != p[j] {
            assert(s@.subrange(i as int, i + p.len())[j as int] != p@[j as int]);
            return false;
        }
        j = j + 1;
    }
    assert(s@.subrange(i as int, i + p.len()) =~= p@);
    true
}

pub fn contains_vec(s: &[char], p: &[char]) -> (b: bool)
    ensures
        b == has_sub(s@, p@),
{
    if p.len() > s.len() {
        assert forall|i: int| !occurs_at(s@, p@, i) by {}
        return false;
    }
    let m = s.len() - p.len();
    let mut i: usize = 0;
    while i < m
        invariant
            m == s.len() - p.len(),
            i <= m,
            forall|k: int| 0 <= k < i ==> !occurs_at(s@, p@, k),
        decreases m - i,
    {
        if occurs_at_exec(s, p, i) {
            return true;
        }
        i = i + 1;
    }
    if occurs_at_exec(s, p, m) {
        return true;
    }
    assert forall|k: int| !occurs_at(s@, p@, k) by {
        if 0 <= k < i {
        }
    }
    false
}

/// `str::contains`, on strings.
pub fn contains_str(s: &str, p: &str) -> (b: bool)
    ensures
        b == has_sub(s@, p@),
{
    let sv = chars_of(s);
    let pv = chars_of(p);
    contains_vec(sv.as_slice(), pv.as_slice())
}

/// `str::starts_with`, on strings.
pub fn starts_with_str(s: &str, p: &str) -> (b: bool)
    ensures
        b == starts_with(s@, p@),
{
    let sv = chars_of(s);
    let pv = chars_of(p);
    occurs_at_exec(sv.as_slice(), pv.as_slice(), 0)
}


/// `str::replace`: every non-overlapping occurrence of `p`, found from the
/// left, replaced by `r`; an empty `p` matches before every character and at
/// the end.
pub open spec fn replace_all(s: Seq<char>, p: Seq<char>, r: Seq<char>) -> Seq<char>
    decreases s.len(),
{
    if p.len() == 0 {
        if s.len() == 0 {
            r
        } else {
            r + seq![s[0]] + replace_all(s.drop_first(), p, r)
        }
    } else if s.len() < p.len() {
        s
    } else if s.take(p.len() as int) == p {
        r + replace_all(s.skip(p.len() as int), p, r)
    } else {
        seq![s[0]] + replace_all(s.drop_first(), p, r)
    }
}

pub fn replace_vec(s: &[char], p: &[char], r: &[char]) -> (out: Vec<char>)
    ensures
        out@ == replace_all(s@, p@, r@),
{
    let mut out: Vec<char> = Vec::new();
    let mut i: usize = 0;
    assert(s@.skip(0) =~= s@);
    while i < s.len()
        invariant
            i <= s.len(),
            replace_all(s@, p@, r@) == out@ + replace_all(s@.skip(i as int), p@, r@),
        decreases s.len() - i,
    {
        let ghost tail = s@.skip(i as int);
        let ghost old_out = out@;
        if p.len() == 0 {
            append_chars(&mut out, r);
            out.push(s[i]);
            proof {
                assert(tail.drop_first() =~= s@.skip(i + 1));
                assert(out@ =~= old_out + r@ + seq![tail[0]]);
            }
            i = i + 1;
        } else if occurs_at_exec(s, p, i) {
            append_chars(&mut out, r);
            proof {
                assert(tail.take(p.len() as int) =~= s@.subrange(i as int, i + p.len()));
                assert(tail.skip(p.len() as int) =~= s@.skip(i + p.len()));
                assert(out@ =~= old_out + r@);
            }
            i = i + p.len();
        } else {
            out.push(s[i]);
            proof {
                if tail.len() >= p.len() {
                    assert(tail.take(p.len() as int) =~= s@.subrange(i as int, i + p.len()));
                }
                assert(tail.drop_first() =~= s@.skip(i + 1));
                if tail.len() < p.len() {
                    assert(replace_all(tail, p@, r@) == tail);
                    lemma_replace_short(tail.drop_first(), p@, r@);
                }
                assert(out@ =~= old_out + seq![tail[0]]);
            }
            i = i + 1;
        }
    }
    proof {
        assert(s@.skip(i as int) =~= Seq::<char>::empty());
        if p.len() == 0 {
            assert(out@ + replace_all(Seq::<char>::empty(), p@, r@) == out@ + r@);
        } else {
            assert(out@ + Seq::<char>::empty() =~= out@);
        }
    }
    if p.len() == 0 {
        append_chars(&mut out, r);
    }
    out
}

/// Below the pattern's length nothing is replaced.
pub proof fn lemma_replace_short(s: Seq<char>, p: Seq<char>, r: Seq<char>)
    requires
        p.len() > 0,
        s.len() < p.len(),
    ensures
        replace_all(s, p, r) == s,
{
}

pub fn append_chars(out: &mut Vec<char>, r: &[char])
    ensures
        final(out)@ == old(out)@ + r@,
{
    let mut j: usize = 0;
    let ghost start = out@;
    while j < r.len()
        invariant
            j <= r.len(),
            out@ == start + r@.take(j as int),
        decreases r.len() - j,
    {
        out.push(r[j]);
        j = j + 1;
        assert(out@ =~= start + r@.take(j as int));
    }
    assert(r@.take(r.len() as int) =~= r@);
}


/// The non-empty pieces, in order.
pub open spec fn drop_empty(parts: Seq<Seq<char>>) -> Seq<Seq<char>>
    decreases parts.len(),
{
    if parts.len() == 0 {
        parts
    } else {
        let r = drop_empty(parts.drop_last());
        if parts.last().len() > 0 {
            r.push(parts.last())
        } else {
            r
        }
    }
}

pub proof fn lemma_drop_empty_add(a: Seq<Seq<char>>, b: Seq<Seq<char>>)
    ensures
        drop_empty(a + b) == drop_empty(a) + drop_empty(b),
    decreases b.len(),
{
    if b.len() == 0 {
        assert(a + b =~= a);
        assert(drop_empty(b) =~= Seq::<Seq<char>>::empty());
        assert(drop_empty(a) + drop_empty(b) =~= drop_empty(a));
    } else {
        lemma_drop_empty_add(a, b.drop_last());
        assert((a + b).drop_last() =~= a + b.drop_last());
        assert((a + b).last() == b.last());
        if b.last().len() > 0 {
            assert(drop_empty(a) + drop_empty(b) =~= (drop_empty(a) + drop_empty(b.drop_last())).push(
                b.last(),
            ));
        }
    }
}

pub proof fn lemma_drop_empty_members(parts: Seq<Seq<char>>)
    ensures
        forall|i: int| 0 <= i < drop_empty(parts).len() ==> drop_empty(parts)[i].len() > 0,
        forall|i: int|
            0 <= i < drop_empty(parts).len() ==> exists|j: int|
                0 <= j < parts.len() && parts[j] == #[trigger] drop_empty(parts)[i],
        drop_empty(parts).len() <= parts.len(),
    decreases parts.len(),
{
    if parts.len() > 0 {
        lemma_drop_empty_members(parts.drop_last());
        let r = drop_empty(parts.drop_last());
        assert forall|i: int| 0 <= i < drop_empty(parts).len() implies exists|j: int|
            0 <= j < parts.len() && parts[j] == #[trigger] drop_empty(parts)[i] by {
            if i < r.len() {
                let j = choose|j: int| 0 <= j < parts.drop_last().len() && parts.drop_last()[j] == r[i];
                assert(parts[j] == parts.drop_last()[j]);
            } else {
                assert(parts[parts.len() - 1] == drop_empty(parts)[i]);
            }
        }
    }
}

/// When no piece is empty, nothing is dropped.
pub proof fn lemma_drop_empty_id(parts: Seq<Seq<char>>)
    requires
        forall|i: int| 0 <= i < parts.len() ==> (#[trigger] parts[i]).len() > 0,
    ensures
        drop_empty(parts) == parts,
    decreases parts.len(),
{
    if parts.len() > 0 {
        lemma_drop_empty_id(parts.drop_last());
        assert(drop_empty(parts.drop_last()).push(parts.last()) =~= parts);
    }
}

pub open spec fn trim_all(parts: Seq<Seq<char>>) -> Seq<Seq<char>> {
    parts.map_values(|p: Seq<char>| trim(p))
}

/// `str::split_whitespace`.
pub open spec fn words(s: Seq<char>) -> Seq<Seq<char>> {
    drop_empty(split_by(s, Sep::Whitespace))
}

/// Leading whitespace does not change the words.
pub proof fn lemma_words_drop_first(s: Seq<char>)
    requires
        s.len() > 0,
        is_ws(s[0]),
    ensures
        words(s) == words(s.drop_first()),
{
    let e = Seq::<char>::empty();
    assert(e + seq![s[0]] + s.drop_first() =~= s);
    lemma_split_concat(e, s[0], s.drop_first(), Sep::Whitespace);
    lemma_drop_empty_add(split_by(e, Sep::Whitespace), split_by(s.drop_first(), Sep::Whitespace));
    assert(split_by(e, Sep::Whitespace) =~= seq![e]);
    assert(seq![e].drop_last() =~= Seq::<Seq<char>>::empty());
    assert(drop_empty(Seq::<Seq<char>>::empty()) =~= Seq::<Seq<char>>::empty());
    assert(drop_empty(seq![e]) =~= Seq::<Seq<char>>::empty());
    assert(Seq::<Seq<char>>::empty() + words(s.drop_first()) =~= words(s.drop_first()));
}

/// Trailing whitespace does not change the words.
pub proof fn lemma_words_drop_last(s: Seq<char>)
    requires
        s.len() > 0,
        is_ws(s.last()),
    ensures
        words(s) == words(s.drop_last()),
{
    let e = Seq::<char>::empty();
    assert(s.drop_last() + seq![s.last()] + e =~= s);
    lemma_split_concat(s.drop_last(), s.last(), e, Sep::Whitespace);
    lemma_drop_empty_add(split_by(s.drop_last(), Sep::Whitespace), split_by(e, Sep::Whitespace));
    assert(split_by(e, Sep::Whitespace) =~= seq![e]);
    assert(seq![e].drop_last() =~= Seq::<Seq<char>>::empty());
    assert(drop_empty(Seq::<Seq<char>>::empty()) =~= Seq::<Seq<char>>::empty());
    assert(drop_empty(seq![e]) =~= Seq::<Seq<char>>::empty());
    assert(words(s.drop_last()) + Seq::<Seq<char>>::empty() =~= words(s.drop_last()));
}

pub proof fn lemma_words_trim_start(s: Seq<char>)
    ensures
        words(trim_start(s)) == words(s),
    decreases s.len(),
{
    if s.len() > 0 && is_ws(s[0]) {
        lemma_words_drop_first(s);
        lemma_words_trim_start(s.drop_first());
    }
}

pub proof fn lemma_words_trim_end(s: Seq<char>)
    ensures
        words(trim_end(s)) == words(s),
    decreases s.len(),
{
    if s.len() > 0 && is_ws(s.last()) {
        lemma_words_drop_last(s);
        lemma_words_trim_end(s.drop_last());
    }
}

/// Trimming does not change the words.
pub proof fn lemma_words_trim(s: Seq<char>)
    ensures
        words(trim(s)) == words(s),
{
    lemma_words_trim_start(s);
    lemma_words_trim_end(trim_start(s));
}

pub proof fn lemma_trim_start_shape(s: Seq<char>)
    ensures
        trim_start(s).len() > 0 ==> !is_ws(trim_start(s)[0]),
        trim_start(s).len() <= s.len(),
        trim_start(s) == s.skip(s.len() - trim_start(s).len()),
    decreases s.len(),
{
    if s.len() > 0 && is_ws(s[0]) {
        lemma_trim_start_shape(s.drop_first());
        assert(s.drop_first().skip(s.drop_first().len() - trim_start(s).len()) =~= s.skip(
            s.len() - trim_start(s).len(),
        ));
    } else {
        assert(s.skip(0) =~= s);
    }
}

pub proof fn lemma_trim_end_shape(s: Seq<char>)
    ensures
        trim_end(s).len() > 0 ==> !is_ws(trim_end(s).last()),
        trim_end(s).len() <= s.len(),
        trim_end(s) == s.take(trim_end(s).len() as int),
    decreases s.len(),
{
    if s.len() > 0 && is_ws(s.last()) {
        lemma_trim_end_shape(s.drop_last());
        assert(s.drop_last().take(trim_end(s).len() as int) =~= s.take(trim_end(s).len() as int));
    } else {
        assert(s.take(s.len() as int) =~= s);
    }
}

/// A trimmed sequence is its own trim.
pub proof fn lemma_trim_trim(s: Seq<char>)
    ensures
        trim(trim(s)) == trim(s),
{
    let t = trim_start(s);
    let u = trim_end(t);
    lemma_trim_start_shape(s);
    lemma_trim_end_shape(t);
    if u.len() > 0 {
        assert(u[0] == t[0]);
    }
    assert(trim_start(u) == u);
    assert(trim_end(u) == u);
}

/// A space in front is trimmed away.
pub proof fn lemma_trim_space_prefix(x: Seq<char>)
    ensures
        trim(seq![' '] + x) == trim(x),
{
    assert((seq![' '] + x).drop_first() =~= x);
}

/// Trimming keeps characters of the original only.
pub proof fn lemma_trim_sub(s: Seq<char>, c: char)
    requires
        !s.contains(c),
    ensures
        !trim(s).contains(c),
{
    lemma_trim_start_shape(s);
    lemma_trim_end_shape(trim_start(s));
    let t = trim_start(s);
    let u = trim(s);
    if u.contains(c) {
        let i = choose|i: int| 0 <= i < u.len() && u[i] == c;
        assert(u[i] == t[i]);
        assert(t[i] == s[s.len() - t.len() + i]);
    }
}

/// No piece of a split holds the separator character.
pub proof fn lemma_split_pieces_lack(s: Seq<char>, d: char)
    ensures
        forall|i: int|
            0 <= i < split_by(s, Sep::Char(d)).len() ==> !(#[trigger] split_by(s, Sep::Char(d))[i]).contains(
                d,
            ),
    decreases s.len(),
{
    if s.len() > 0 {
        lemma_split_pieces_lack(s.drop_first(), d);
        lemma_split_nonempty(s.drop_first(), Sep::Char(d));
        let rest = split_by(s.drop_first(), Sep::Char(d));
        let whole = split_by(s, Sep::Char(d));
        assert forall|i: int| 0 <= i < whole.len() implies !(#[trigger] whole[i]).contains(d) by {
            if s[0] == d {
                if i > 0 {
                    assert(whole[i] == rest[i - 1]);
                } else {
                    assert(whole[i] =~= Seq::<char>::empty());
                }
            } else {
                if i > 0 {
                    assert(whole[i] == rest[i]);
                } else {
                    let w = whole[0];
                    assert(w =~= seq![s[0]] + rest[0]);
                    if w.contains(d) {
                        let k = choose|k: int| 0 <= k < w.len() && w[k] == d;
                        assert(k > 0);
                        assert(rest[0][k - 1] == d);
                    }
                }
            }
        }
    } else {
        let whole = split_by(s, Sep::Char(d));
        assert(whole[0] =~= Seq::<char>::empty());
    }
}


pub fn strings_eq(a: &[String], b: &[String]) -> (r: bool)
    ensures
        r == (views(a@) == views(b@)),
{
    if a.len() != b.len() {
        assert(views(a@).len() != views(b@).len());
        return false;
    }
    let mut i: usize = 0;
    while i < a.len()
        invariant
            a.len() == b.len(),
            i <= a.len(),
            forall|k: int| 0 <= k < i ==> a@[k]@ == b@[k]@,
        decreases a.len() - i,
    {
        if a[i] != b[i] {
            assert(views(a@)[i as int] != views(b@)[i as int]);
            return false;
        }
        i = i + 1;
    }
    assert(views(a@) =~= views(b@));
    true
}

/// The non-empty pieces of `parts`.
pub fn drop_empty_vecs(parts: Vec<Vec<char>>) -> (r: Vec<Vec<char>>)
    ensures
        vviews(r@) == drop_empty(vviews(parts@)),
{
    let mut r: Vec<Vec<char>> = Vec::new();
    let mut i: usize = 0;
    while i < parts.len()
        invariant
            i <= parts.len(),
            vviews(r@) == drop_empty(vviews(parts@).take(i as int)),
        decreases parts.len() - i,
    {
        let ghost prev = r@;
        let ghost cur = vviews(parts@).take(i + 1);
        assert(cur.drop_last() =~= vviews(parts@).take(i as int));
        assert(cur.last() == parts@[i as int]@);
        if parts[i].len() > 0 {
            r.push(parts[i].clone());
            assert(vviews(r@) =~= vviews(prev).push(parts@[i as int]@));
        }
        i = i + 1;
    }
    assert(vviews(parts@).take(parts.len() as int) =~= vviews(parts@));
    r
}

/// The pieces with `sep` between neighbours.
pub fn join_vecs(parts: &[Vec<char>], sep: &[char]) -> (r: Vec<char>)
    ensures
        r@ == join(vviews(parts@), sep@),
{
    let mut r: Vec<char> = Vec::new();
    let mut i: usize = 0;
    while i < parts.len()
        invariant
            i <= parts.len(),
            r@ == join(vviews(parts@).take(i as int), sep@),
        decreases parts.len() - i,
    {
        let ghost prev = vviews(parts@).take(i as int);
        if i > 0 {
            append_chars(&mut r, sep);
        }
        append_chars(&mut r, parts[i].as_slice());
        i = i + 1;
        proof {
            let cur = vviews(parts@).take(i as int);
            assert(cur.drop_last() =~= prev);
            if i == 1 {
                assert(cur =~= seq![parts@[0]@]);
                assert(r@ =~= parts@[0]@);
            }
        }
    }
    assert(vviews(parts@).take(parts.len() as int) =~= vviews(parts@));
    r
}

pub fn strings_of_vecs(parts: &[Vec<char>]) -> (r: Vec<String>)
    ensures
        views(r@) == vviews(parts@),
{
    let mut r: Vec<String> = Vec::new();
    let mut i: usize = 0;
    while i < parts.len()
        invariant
            i <= parts.len(),
            views(r@) == vviews(parts@).take(i as int),
        decreases parts.len() - i,
    {
        let ghost prev = r@;
        let st = string_of(parts[i].as_slice());
        r.push(st);
        i = i + 1;
        assert(views(r@) =~= views(prev).push(st@));
        assert(vviews(parts@).take(i as int) =~= vviews(parts@).take(i - 1).push(parts@[i - 1]@));
    }
    assert(vviews(parts@).take(parts.len() as int) =~= vviews(parts@));
    r
}


pub proof fn lemma_trim_all_add(a: Seq<Seq<char>>, b: Seq<Seq<char>>)
    ensures
        trim_all(a + b) == trim_all(a) + trim_all(b),
{
    assert(trim_all(a + b) =~= trim_all(a) + trim_all(b));
}

/// Every non-empty piece is kept.
pub proof fn lemma_drop_empty_keeps(parts: Seq<Seq<char>>, j: int)
    requires
        0 <= j < parts.len(),
        parts[j].len() > 0,
    ensures
        exists|i: int| 0 <= i < drop_empty(parts).len() && drop_empty(parts)[i] == parts[j],
    decreases parts.len(),
{
    let r = drop_empty(parts.drop_last());
    if j == parts.len() - 1 {
        assert(drop_empty(parts)[r.len() as int] == parts[j]);
    } else {
        lemma_drop_empty_keeps(parts.drop_last(), j);
        let i = choose|i: int| 0 <= i < r.len() && r[i] == parts.drop_last()[j];
        assert(drop_empty(parts)[i] == parts[j]);
    }
}

/// Only empty pieces: nothing is kept.
pub proof fn lemma_drop_empty_blank(parts: Seq<Seq<char>>)
    requires
        forall|i: int| 0 <= i < parts.len() ==> (#[trigger] parts[i]).len() == 0,
    ensures
        drop_empty(parts) == Seq::<Seq<char>>::empty(),
    decreases parts.len(),
{
    if parts.len() > 0 {
        lemma_drop_empty_blank(parts.drop_last());
    }
}

/// A join is at least as long as each of its parts.
pub proof fn lemma_join_len(parts: Seq<Seq<char>>, sep: Seq<char>, k: int)
    requires
        0 <= k < parts.len(),
    ensures
        join(parts, sep).len() >= parts[k].len(),
    decreases parts.len(),
{
    if parts.len() > 1 && k < parts.len() - 1 {
        lemma_join_len(parts.drop_last(), sep, k);
    }
}

/// What is left after trimming starts and ends with a non-space.
pub proof fn lemma_trim_first(s: Seq<char>)
    requires
        trim(s).len() > 0,
    ensures
        !is_ws(trim(s)[0]),
{
    lemma_trim_start_shape(s);
    lemma_trim_end_shape(trim_start(s));
}

/// A sequence with a non-space first character has at least one word.
pub proof fn lemma_words_nonempty(t: Seq<char>)
    requires
        t.len() > 0,
        !is_ws(t[0]),
    ensures
        words(t).len() > 0,
        join(words(t), seq![' ']).len() > 0,
{
    let p = split_by(t, Sep::Whitespace);
    lemma_split_nonempty(t.drop_first(), Sep::Whitespace);
    assert(p[0].len() > 0);
    lemma_drop_empty_keeps(p, 0);
    let i = choose|i: int| 0 <= i < drop_empty(p).len() && drop_empty(p)[i] == p[0];
    lemma_join_len(words(t), seq![' '], i);
}

} // verus!
