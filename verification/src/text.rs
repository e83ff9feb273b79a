//! Strings as sequences of characters: searching, trimming and splitting.

use vstd::prelude::*;

verus! {

/// `p` stands in `s` at position `i`.
pub open spec fn occurs_at(s: Seq<char>, p: Seq<char>, i: int) -> bool {
    &&& 0 <= i
    &&& i + p.len() <= s.len()
    &&& s.subrange(i, i + p.len()) == p
}

/// `p` stands somewhere in `s`.
pub open spec fn occurs(s: Seq<char>, p: Seq<char>) -> bool {
    exists|i: int| occurs_at(s, p, i)
}

/// The first position from `i` on at which `p` stands in `s`.
pub open spec fn occurrence_from(s: Seq<char>, p: Seq<char>, i: int) -> Option<int>
    decreases s.len() + 1 - i,
{
    if i + p.len() > s.len() {
        None
    } else if occurs_at(s, p, i) {
        Some(i)
    } else {
        occurrence_from(s, p, i + 1)
    }
}

/// The first position at which `p` stands in `s`.
pub open spec fn first_occurrence(s: Seq<char>, p: Seq<char>) -> Option<int> {
    occurrence_from(s, p, 0)
}

/// A position at which `p` stands, and before which it does not, is the first occurrence.
proof fn occurrence_is_first(s: Seq<char>, p: Seq<char>, from: int, i: int)
    requires
        0 <= from <= i,
        occurs_at(s, p, i),
        forall|j: int| from <= j < i ==> !occurs_at(s, p, j),
    ensures
        occurrence_from(s, p, from) == Some(i),
    decreases i - from,
{
    if from < i {
        assert(!occurs_at(s, p, from));
        occurrence_is_first(s, p, from + 1, i);
    }
}

/// Where `p` does not stand in `s` there is no first occurrence.
proof fn no_first_occurrence(s: Seq<char>, p: Seq<char>, from: int)
    requires
        0 <= from,
        !occurs(s, p),
    ensures
        occurrence_from(s, p, from) is None,
    decreases s.len() + 1 - from,
{
    if from + p.len() <= s.len() {
        assert(!occurs_at(s, p, from));
        no_first_occurrence(s, p, from + 1);
    }
}

/// `p` stands at its first occurrence in `s`.
pub proof fn first_occurrence_occurs(s: Seq<char>, p: Seq<char>)
    ensures
        first_occurrence(s, p) matches Some(i) ==> occurs_at(s, p, i),
{
    occurrence_occurs(s, p, 0);
}

proof fn occurrence_occurs(s: Seq<char>, p: Seq<char>, from: int)
    requires
        0 <= from,
    ensures
        occurrence_from(s, p, from) matches Some(i) ==> occurs_at(s, p, i),
    decreases s.len() + 1 - from,
{
    if from + p.len() <= s.len() && !occurs_at(s, p, from) {
        occurrence_occurs(s, p, from + 1);
    }
}

/// One of `ps` stands somewhere in `s`.
pub open spec fn occurs_any(s: Seq<char>, ps: Seq<Seq<char>>) -> bool {
    exists|k: int| 0 <= k < ps.len() && occurs(s, #[trigger] ps[k])
}

/// The texts of a list of string slices.
pub open spec fn texts(list: Seq<&str>) -> Seq<Seq<char>> {
    Seq::new(list.len(), |i: int| list[i]@)
}

/// The characters of a string slice.
pub fn chars_of(s: &str) -> (r: Vec<char>)
    ensures
        r@ == s@,
{
    let mut out: Vec<char> = Vec::new();
    for c in it: s.chars()
        invariant
            out@ == it.seq().take(it.index() as int),
            it.seq() == s@,
    {
        proof {
            assert(it.seq().take(it.index() + 1) == it.seq().take(it.index() as int).push(c));
        }
        out.push(c);
    }
    proof {
        assert(s@.take(s@.len() as int) == s@);
    }
    out
}

/// Trusted: std's `String::push` puts the character at the end of the string.
pub assume_specification[ String::push ](s: &mut String, ch: char)
    ensures
        final(s)@ == old(s)@.push(ch),
;

/// A string made of the given characters.
pub fn string_of(chars: &[char]) -> (r: String)
    ensures
        r@ == chars@,
{
    let mut out = String::new();
    let mut i: usize = 0;
    while i < chars.len()
        invariant
            i <= chars@.len(),
            out@ == chars@.take(i as int),
        decreases chars@.len() - i,
    {
        proof {
            assert(chars@.take(i + 1) =~= chars@.take(i as int).push(chars@[i as int]));
        }
        out.push(chars[i]);
        i += 1;
    }
    proof {
        assert(chars@.take(chars@.len() as int) =~= chars@);
    }
    out
}

/// Whether `p` stands in `s` at position `i`.
pub fn matches_at(s: &[char], p: &[char], i: usize) -> (r: bool)
    ensures
        r == occurs_at(s@, p@, i as int),
{
    if p.len() > s.len() || i > s.len() - p.len() {
        return false;
    }
    let mut k: usize = 0;
    while k < p.len()
        invariant
            i + p.len() <= s.len(),
            k <= p.len(),
            forall|j: int| 0 <= j < k ==> s@[i + j] == p@[j],
        decreases p.len() - k,
    {
        if s[i + k] != p[k] {
            proof {
                assert(s@.subrange(i as int, i + p@.len())[k as int] != p@[k as int]);
            }
            return false;
        }
        k += 1;
    }
    proof {
        assert(s@.subrange(i as int, i + p@.len()) =~= p@);
    }
    true
}

/// The first position at which `p` stands in `s`.
pub fn find(s: &[char], p: &[char]) -> (r: Option<usize>)
    ensures
        match r {
            Some(i) => first_occurrence(s@, p@) == Some(i as int) && occurs_at(s@, p@, i as int),
            None => first_occurrence(s@, p@) is None && !occurs(s@, p@),
        },
{
    let mut i: usize = 0;
    while i < s.len() && p.len() <= s.len() - i
        invariant
            i <= s.len(),
            forall|j: int| 0 <= j < i ==> !occurs_at(s@, p@, j),
        decreases s.len() - i,
    {
        if matches_at(s, p, i) {
            proof {
                occurrence_is_first(s@, p@, 0, i as int);
            }
            return Some(i);
        }
        i += 1;
    }
    if matches_at(s, p, i) {
        proof {
            occurrence_is_first(s@, p@, 0, i as int);
        }
        return Some(i);
    }
    proof {
        assert(!occurs(s@, p@));
        no_first_occurrence(s@, p@, 0);
    }
    None
}

/// Whether one of `ps` stands in `s`.
pub fn contains_any(s: &[char], ps: &[&str]) -> (r: bool)
    ensures
        r == occurs_any(s@, texts(ps@)),
{
    let mut k: usize = 0;
    while k < ps.len()
        invariant
            k <= ps.len(),
            forall|j: int| 0 <= j < k ==> !occurs(s@, #[trigger] texts(ps@)[j]),
        decreases ps.len() - k,
    {
        let p = chars_of(ps[k]);
        if find(s, &p).is_some() {
            proof {
                assert(texts(ps@)[k as int] == p@);
            }
            return true;
        }
        proof {
            assert(texts(ps@)[k as int] == p@);
        }
        k += 1;
    }
    false
}

/// Whether `p` stands in `s`.
pub fn contains(s: &[char], p: &str) -> (r: bool)
    ensures
        r == occurs(s@, p@),
{
    find(s, &chars_of(p)).is_some()
}

/// Whether two texts are the same.
pub fn same(a: &[char], b: &[char]) -> (r: bool)
    ensures
        r == (a@ == b@),
{
    if a.len() != b.len() {
        return false;
    }
    let r = matches_at(a, b, 0);
    proof {
        assert(a@.subrange(0, b@.len() as int) =~= a@);
    }
    r
}

/// Whether two string slices hold the same text.
pub fn same_str(a: &str, b: &str) -> (r: bool)
    ensures
        r == (a@ == b@),
{
    same(&chars_of(a), &chars_of(b))
}

/// `s` is one of `ps`.
pub open spec fn one_of(s: Seq<char>, ps: Seq<Seq<char>>) -> bool {
    exists|k: int| 0 <= k < ps.len() && s == #[trigger] ps[k]
}

/// Whether `s` is one of `ps`.
pub fn is_one_of(s: &[char], ps: &[&str]) -> (r: bool)
    ensures
        r == one_of(s@, texts(ps@)),
{
    let mut k: usize = 0;
    while k < ps.len()
        invariant
            k <= ps.len(),
            forall|j: int| 0 <= j < k ==> s@ != #[trigger] texts(ps@)[j],
        decreases ps.len() - k,
    {
        let p = chars_of(ps[k]);
        proof {
            assert(texts(ps@)[k as int] == p@);
        }
        if same(s, &p) {
            return true;
        }
        k += 1;
    }
    false
}

/// The texts of a list of strings.
pub open spec fn strings(list: Seq<String>) -> Seq<Seq<char>> {
    Seq::new(list.len(), |i: int| list[i]@)
}

/// The text of an optional string.
pub open spec fn text_of(s: Option<String>) -> Option<Seq<char>> {
    match s {
        Some(t) => Some(t@),
        None => None,
    }
}

/// The text of an optional string slice.
pub open spec fn slice_text(s: Option<&str>) -> Option<Seq<char>> {
    match s {
        Some(t) => Some(t@),
        None => None,
    }
}

/// The first of `list` of which `p` holds.
pub open spec fn first_where(list: Seq<Seq<char>>, p: spec_fn(Seq<char>) -> bool) -> Option<
    Seq<char>,
>
    decreases list.len(),
{
    if list.len() == 0 {
        None
    } else if p(list[0]) {
        Some(list[0])
    } else {
        first_where(list.drop_first(), p)
    }
}

/// `s` is the text of one of the strings in `list`.
pub open spec fn listed(s: Seq<char>, list: Seq<String>) -> bool {
    exists|k: int| 0 <= k < list.len() && s == (#[trigger] list[k])@
}

/// Whether `s` is the text of one of the strings in `list`.
pub fn is_listed(s: &str, list: &[String]) -> (r: bool)
    ensures
        r == listed(s@, list@),
{
    let mut k: usize = 0;
    while k < list.len()
        invariant
            k <= list.len(),
            forall|j: int| 0 <= j < k ==> s@ != (#[trigger] list@[j])@,
        decreases list.len() - k,
    {
        if same_str(s, list[k].as_str()) {
            return true;
        }
        k += 1;
    }
    false
}

/// The characters with the Unicode property White_Space.
pub open spec fn white_space(c: char) -> bool {
    let n = c as u32;
    ||| 0x9 <= n <= 0xd
    ||| n == 0x20
    ||| n == 0x85
    ||| n == 0xa0
    ||| n == 0x1680
    ||| 0x2000 <= n <= 0x200a
    ||| n == 0x2028
    ||| n == 0x2029
    ||| n == 0x202f
    ||| n == 0x205f
    ||| n == 0x3000
}

/// Whether `c` has the Unicode property White_Space.
pub fn is_white_space(c: char) -> (r: bool)
    ensures
        r == white_space(c),
{
    let n: u32 = c as u32;
    (0x9 <= n && n <= 0xd) || n == 0x20 || n == 0x85 || n == 0xa0 || n == 0x1680 || (0x2000 <= n
        && n <= 0x200a) || n == 0x2028 || n == 0x2029 || n == 0x202f || n == 0x205f || n == 0x3000
}

/// `s` without the white space at its start.
pub open spec fn trimmed_start(s: Seq<char>) -> Seq<char>
    decreases s.len(),
{
    if s.len() > 0 && white_space(s[0]) {
        trimmed_start(s.drop_first())
    } else {
        s
    }
}

/// `s` without the white space at its end.
pub open spec fn trimmed_end(s: Seq<char>) -> Seq<char>
    decreases s.len(),
{
    if s.len() > 0 && white_space(s.last()) {
        trimmed_end(s.drop_last())
    } else {
        s
    }
}

/// `s` without the white space at either end.
pub open spec fn trimmed(s: Seq<char>) -> Seq<char> {
    trimmed_end(trimmed_start(s))
}

/// `s` without the white space at either end.
pub fn trim(s: &[char]) -> (r: &[char])
    ensures
        r@ == trimmed(s@),
{
    let mut i: usize = 0;
    proof {
        assert(s@.skip(0) =~= s@);
    }
    while i < s.len() && is_white_space(s[i])
        invariant
            i <= s.len(),
            trimmed_start(s@) == trimmed_start(s@.skip(i as int)),
        decreases s.len() - i,
    {
        proof {
            assert(s@.skip(i as int).drop_first() =~= s@.skip(i + 1));
        }
        i += 1;
    }
    let ghost body = trimmed_start(s@);
    proof {
        assert(body == s@.skip(i as int));
    }
    let mut n: usize = s.len();
    proof {
        assert(s@.subrange(i as int, n as int) =~= body);
    }
    while n > i && is_white_space(s[n - 1])
        invariant
            i <= n <= s.len(),
            trimmed_end(body) == trimmed_end(s@.subrange(i as int, n as int)),
        decreases n,
    {
        proof {
            assert(s@.subrange(i as int, n as int).drop_last() =~= s@.subrange(
                i as int,
                n - 1,
            ));
        }
        n -= 1;
    }
    vstd::slice::slice_subrange(s, i, n)
}

/// What stands in `s` and neither begins nor ends with white space also stands in `s` without the
/// white space at either end.
pub proof fn trimming_keeps_what_occurs(s: Seq<char>, p: Seq<char>)
    requires
        p.len() > 0,
        !white_space(p[0]),
        !white_space(p.last()),
        occurs(s, p),
    ensures
        occurs(trimmed(s), p),
{
    trimmed_start_keeps_what_occurs(s, p);
    trimmed_end_keeps_what_occurs(trimmed_start(s), p);
}

proof fn trimmed_start_keeps_what_occurs(s: Seq<char>, p: Seq<char>)
    requires
        p.len() > 0,
        !white_space(p[0]),
        occurs(s, p),
    ensures
        occurs(trimmed_start(s), p),
    decreases s.len(),
{
    let i = choose|i: int| occurs_at(s, p, i);
    assert(p[0] == s.subrange(i, i + p.len())[0]);
    if s.len() > 0 && white_space(s[0]) {
        let rest = s.drop_first();
        assert(rest.subrange(i - 1, i - 1 + p.len()) =~= s.subrange(i, i + p.len()));
        assert(occurs_at(rest, p, i - 1));
        trimmed_start_keeps_what_occurs(rest, p);
    }
}

proof fn trimmed_end_keeps_what_occurs(s: Seq<char>, p: Seq<char>)
    requires
        p.len() > 0,
        !white_space(p.last()),
        occurs(s, p),
    ensures
        occurs(trimmed_end(s), p),
    decreases s.len(),
{
    let i = choose|i: int| occurs_at(s, p, i);
    assert(p.last() == s.subrange(i, i + p.len())[p.len() - 1]);
    if s.len() > 0 && white_space(s.last()) {
        let rest = s.drop_last();
        assert(rest.subrange(i, i + p.len()) =~= s.subrange(i, i + p.len()));
        assert(occurs_at(rest, p, i));
        trimmed_end_keeps_what_occurs(rest, p);
    }
}

/// `s` begins with `p`.
pub open spec fn begins(s: Seq<char>, p: Seq<char>) -> bool {
    occurs_at(s, p, 0)
}

/// `s` without all `c` at its end.
pub open spec fn without_trailing(s: Seq<char>, c: char) -> Seq<char>
    decreases s.len(),
{
    if s.len() > 0 && s.last() == c {
        without_trailing(s.drop_last(), c)
    } else {
        s
    }
}

/// `s` without all `c` at its end.
pub fn trim_end_char(s: &str, c: char) -> (r: String)
    ensures
        r@ == without_trailing(s@, c),
{
    let v = chars_of(s);
    let mut n: usize = v.len();
    proof {
        assert(v@.take(n as int) =~= v@);
    }
    while n > 0 && v[n - 1] == c
        invariant
            n <= v.len(),
            without_trailing(v@, c) == without_trailing(v@.take(n as int), c),
        decreases n,
    {
        proof {
            assert(v@.take(n as int).drop_last() =~= v@.take(n - 1));
        }
        n -= 1;
    }
    string_of(vstd::slice::slice_subrange(&v, 0, n))
}

/// The first position of `c` in `s`, or the length of `s`.
pub open spec fn position(s: Seq<char>, c: char) -> int
    decreases s.len(),
{
    if s.len() == 0 || s[0] == c {
        0
    } else {
        1 + position(s.drop_first(), c)
    }
}

/// `position` is within `s`, stops at a `c`, and passes over none.
pub proof fn position_is_first(s: Seq<char>, c: char)
    ensures
        0 <= position(s, c) <= s.len(),
        position(s, c) < s.len() ==> s[position(s, c)] == c,
        forall|j: int| 0 <= j < position(s, c) ==> s[j] != c,
    decreases s.len(),
{
    if s.len() > 0 && s[0] != c {
        position_is_first(s.drop_first(), c);
        assert forall|j: int| 0 <= j < position(s, c) implies s[j] != c by {
            if j > 0 {
                assert(s.drop_first()[j - 1] != c);
            }
        }
    }
}

/// Nothing but `position` has its properties.
proof fn position_unique(s: Seq<char>, c: char, i: int)
    requires
        0 <= i <= s.len(),
        i < s.len() ==> s[i] == c,
        forall|j: int| 0 <= j < i ==> s[j] != c,
    ensures
        i == position(s, c),
{
    position_is_first(s, c);
    let p = position(s, c);
    if i < p {
        assert(s[i] != c);
    } else if p < i {
        assert(s[p] != c);
    }
}

/// The first position of `c` in `s`, or the length of `s`.
pub fn position_of(s: &[char], c: char) -> (r: usize)
    ensures
        r == position(s@, c),
{
    let mut i: usize = 0;
    while i < s.len() && s[i] != c
        invariant
            i <= s.len(),
            forall|j: int| 0 <= j < i ==> s@[j] != c,
        decreases s.len() - i,
    {
        i += 1;
    }
    proof {
        position_unique(s@, c, i as int);
    }
    i
}

/// The pieces of `s` between line feeds.
pub open spec fn line_pieces(s: Seq<char>) -> Seq<Seq<char>>
    decreases s.len(),
    via line_pieces_ends
{
    let i = position(s, '\n');
    if i >= s.len() {
        seq![s]
    } else {
        seq![s.take(i)] + line_pieces(s.skip(i + 1))
    }
}

#[via_fn]
proof fn line_pieces_ends(s: Seq<char>) {
    position_is_first(s, '\n');
}

/// The texts of a list of character slices.
pub open spec fn slices(list: Seq<&[char]>) -> Seq<Seq<char>> {
    Seq::new(list.len(), |i: int| list[i]@)
}

/// The pieces of `s` between line feeds.
pub fn lines(s: &[char]) -> (r: Vec<&[char]>)
    ensures
        slices(r@) == line_pieces(s@),
{
    let mut out: Vec<&[char]> = Vec::new();
    let mut rest: &[char] = s;
    proof {
        assert(slices(out@) + line_pieces(rest@) =~= line_pieces(s@));
    }
    loop
        invariant
            slices(out@) + line_pieces(rest@) == line_pieces(s@),
        decreases rest.len(),
    {
        let i = position_of(rest, '\n');
        proof {
            position_is_first(rest@, '\n');
        }
        let ghost before = out@;
        if i >= rest.len() {
            out.push(rest);
            proof {
                assert(slices(out@) =~= slices(before) + seq![rest@]);
            }
            return out;
        }
        let piece = vstd::slice::slice_subrange(rest, 0, i);
        out.push(piece);
        let ghost whole = rest@;
        rest = vstd::slice::slice_subrange(rest, i + 1, rest.len());
        proof {
            assert(whole.take(i as int) =~= piece@);
            assert(rest@ =~= whole.skip(i + 1));
            assert(slices(out@) =~= slices(before) + seq![piece@]);
            assert(slices(before) + (seq![piece@] + line_pieces(rest@)) =~= slices(before) + seq![
                piece@,
            ] + line_pieces(rest@));
        }
    }
}

/// The lower-case form of an ASCII letter; any other character itself.
pub open spec fn ascii_lower(c: char) -> char {
    if 'A' <= c && c <= 'Z' {
        (c as u32 + 32) as char
    } else {
        c
    }
}

/// The code of the lower-case form of an ASCII letter; of any other character its own.
fn ascii_lower_code(c: char) -> (r: u32)
    ensures
        r == ascii_lower(c) as u32,
{
    let n: u32 = c as u32;
    if 0x41 <= n && n <= 0x5a {
        n + 32
    } else {
        n
    }
}

/// `s` with each ASCII letter in lower case.
pub open spec fn ascii_lowered(s: Seq<char>) -> Seq<char> {
    Seq::new(s.len(), |i: int| ascii_lower(s[i]))
}

/// `s` with each ASCII letter in lower case.
pub fn to_ascii_lower(s: &[char]) -> (r: Vec<char>)
    ensures
        r@ == ascii_lowered(s@),
{
    let mut r: Vec<char> = Vec::new();
    let mut i: usize = 0;
    while i < s.len()
        invariant
            i <= s.len(),
            r@ =~= ascii_lowered(s@).take(i as int),
        decreases s.len() - i,
    {
        let c = s[i];
        r.push(if 'A' <= c && c <= 'Z' { (c as u8 + 32) as char } else { c });
        i += 1;
    }
    r
}

/// White space stays at the ends, and nothing else becomes white space, when ASCII letters are put
/// in lower case.
pub proof fn trimming_keeps_ascii_lower(s: Seq<char>)
    ensures
        trimmed(ascii_lowered(s)) == ascii_lowered(trimmed(s)),
{
    trimmed_start_keeps_ascii_lower(s);
    trimmed_end_keeps_ascii_lower(trimmed_start(s));
}

proof fn trimmed_start_keeps_ascii_lower(s: Seq<char>)
    ensures
        trimmed_start(ascii_lowered(s)) == ascii_lowered(trimmed_start(s)),
    decreases s.len(),
{
    if s.len() > 0 && white_space(s[0]) {
        assert(ascii_lowered(s).drop_first() =~= ascii_lowered(s.drop_first()));
        trimmed_start_keeps_ascii_lower(s.drop_first());
    }
}

proof fn trimmed_end_keeps_ascii_lower(s: Seq<char>)
    ensures
        trimmed_end(ascii_lowered(s)) == ascii_lowered(trimmed_end(s)),
    decreases s.len(),
{
    if s.len() > 0 && white_space(s.last()) {
        assert(ascii_lowered(s).drop_last() =~= ascii_lowered(s.drop_last()));
        trimmed_end_keeps_ascii_lower(s.drop_last());
    }
}

/// `a` and `b` differ at most in the case of ASCII letters.
pub open spec fn same_but_ascii_case(a: Seq<char>, b: Seq<char>) -> bool {
    ascii_lowered(a) == ascii_lowered(b)
}

/// Whether `a` and `b` differ at most in the case of ASCII letters.
pub fn same_ignoring_ascii_case(a: &str, b: &str) -> (r: bool)
    ensures
        r == same_but_ascii_case(a@, b@),
{
    let x = chars_of(a);
    let y = chars_of(b);
    let ghost la = ascii_lowered(a@);
    let ghost lb = ascii_lowered(b@);
    if x.len() != y.len() {
        proof {
            assert(la.len() != lb.len());
        }
        return false;
    }
    let mut i: usize = 0;
    while i < x.len()
        invariant
            i <= x.len(),
            x.len() == y.len(),
            x@ == a@,
            y@ == b@,
            la == ascii_lowered(a@),
            lb == ascii_lowered(b@),
            forall|j: int| 0 <= j < i ==> ascii_lower(x@[j]) == ascii_lower(y@[j]),
        decreases x.len() - i,
    {
        if ascii_lower_code(x[i]) != ascii_lower_code(y[i]) {
            proof {
                assert(la[i as int] != lb[i as int]);
            }
            return false;
        }
        i += 1;
    }
    proof {
        assert(la =~= lb);
    }
    true
}

/// What `str::to_lowercase` returns for a text.
pub uninterp spec fn lowercase(s: Seq<char>) -> Seq<char>;

/// `s` is written in ASCII and Chinese characters alone.
pub open spec fn ascii_or_chinese(s: Seq<char>) -> bool {
    forall|i: int|
        0 <= i < s.len() ==> (#[trigger] s[i] as u32) < 0x80 || 0x4e00 <= s[i] as u32 <= 0x9fff
}

/// The lower-case form of `s`. Chinese characters have no case.
pub open spec fn lowered(s: Seq<char>) -> Seq<char> {
    if ascii_or_chinese(s) {
        ascii_lowered(s)
    } else {
        lowercase(s)
    }
}

/// The lower-case form of `s`. Trusted: std's `str::to_lowercase`, whose result depends on the
/// text alone and which, in a text of ASCII and Chinese characters, changes nothing but the letters
/// `A` to `Z`: a script without case is left as it is.
#[verifier::external_body]
fn to_lowercase(s: &str) -> (r: String)
    ensures
        r@ == lowercase(s@),
        ascii_or_chinese(s@) ==> r@ == ascii_lowered(s@),
{
    s.to_lowercase()
}

/// The lower-case form of `s`.
pub fn lower_of(s: &str) -> (r: String)
    ensures
        r@ == lowered(s@),
{
    to_lowercase(s)
}

/// `s` is written in Chinese characters alone, which have no case.
pub open spec fn chinese(s: Seq<char>) -> bool {
    forall|i: int| 0 <= i < s.len() ==> 0x4e00 <= (#[trigger] s[i]) as u32 <= 0x9fff
}

/// Whether `s` is written in Chinese characters alone.
pub fn is_chinese(s: &[char]) -> (r: bool)
    ensures
        r == chinese(s@),
{
    let mut i: usize = 0;
    while i < s.len()
        invariant
            i <= s.len(),
            forall|j: int| 0 <= j < i ==> 0x4e00 <= (#[trigger] s@[j]) as u32 <= 0x9fff,
        decreases s.len() - i,
    {
        let n: u32 = s[i] as u32;
        if n < 0x4e00 || n > 0x9fff {
            assert(!(0x4e00 <= s@[i as int] as u32 <= 0x9fff));
            return false;
        }
        i += 1;
    }
    true
}

/// What `char::is_alphanumeric` returns for a character.
pub uninterp spec fn alphanumeric(c: char) -> bool;

/// Whether `c` is a letter or a number. Trusted: std's `char::is_alphanumeric`, which among the
/// ASCII characters holds of the letters and digits.
#[verifier::external_body]
fn is_alphanumeric(c: char) -> (r: bool)
    ensures
        r == alphanumeric(c),
        (c as u32) < 0x80 ==> r == ('0' <= c && c <= '9' || 'a' <= c && c <= 'z' || 'A' <= c && c
            <= 'Z'),
{
    c.is_alphanumeric()
}

/// `c` is a letter or a number.
pub open spec fn word_char(c: char) -> bool {
    if (c as u32) < 0x80 {
        '0' <= c && c <= '9' || 'a' <= c && c <= 'z' || 'A' <= c && c <= 'Z'
    } else {
        alphanumeric(c)
    }
}

/// Whether `c` is a letter or a number.
pub fn is_word_char(c: char) -> (r: bool)
    ensures
        r == word_char(c),
{
    is_alphanumeric(c)
}

/// `w` stands in `s` at `i` with no letter or number right before or after it.
pub open spec fn word_at(s: Seq<char>, w: Seq<char>, i: int) -> bool {
    &&& occurs_at(s, w, i)
    &&& i == 0 || !word_char(s[i - 1])
    &&& i + w.len() == s.len() || !word_char(s[i + w.len()])
}

/// `w` is one of the pieces into which the characters that are neither letters nor numbers
/// divide `s`.
pub open spec fn has_word(s: Seq<char>, w: Seq<char>) -> bool {
    &&& forall|k: int| 0 <= k < w.len() ==> word_char(#[trigger] w[k])
    &&& exists|i: int| word_at(s, w, i)
}

/// Whether `w` stands in `s` at `i` with no letter or number right before or after it.
fn word_stands_at(s: &[char], w: &[char], i: usize) -> (r: bool)
    ensures
        r == word_at(s@, w@, i as int),
{
    matches_at(s, w, i) && (i == 0 || !is_word_char(s[i - 1])) && (w.len() == s.len() - i
        || !is_word_char(s[i + w.len()]))
}

/// Whether `w` is one of the pieces into which the characters that are neither letters nor
/// numbers divide `s`.
pub fn contains_word(s: &[char], w: &str) -> (r: bool)
    ensures
        r == has_word(s@, w@),
{
    let p = chars_of(w);
    let mut k: usize = 0;
    while k < p.len()
        invariant
            k <= p.len(),
            p@ == w@,
            forall|j: int| 0 <= j < k ==> word_char(#[trigger] p@[j]),
        decreases p.len() - k,
    {
        if !is_word_char(p[k]) {
            return false;
        }
        k += 1;
    }
    let mut i: usize = 0;
    while i < s.len() && p.len() <= s.len() - i
        invariant
            i <= s.len(),
            p@ == w@,
            forall|j: int| 0 <= j < i ==> !word_at(s@, w@, j),
            forall|j: int| 0 <= j < p.len() ==> word_char(#[trigger] p@[j]),
        decreases s.len() - i,
    {
        if word_stands_at(s, &p, i) {
            return true;
        }
        i += 1;
    }
    word_stands_at(s, &p, i)
}

/// One of `ws` is one of the pieces into which the characters that are neither letters nor
/// numbers divide `s`.
pub open spec fn has_any_word(s: Seq<char>, ws: Seq<Seq<char>>) -> bool {
    exists|k: int| 0 <= k < ws.len() && has_word(s, #[trigger] ws[k])
}

/// Whether one of `ws` is one of the pieces into which the characters that are neither letters
/// nor numbers divide `s`.
pub fn contains_any_word(s: &[char], ws: &[&str]) -> (r: bool)
    ensures
        r == has_any_word(s@, texts(ws@)),
{
    let mut k: usize = 0;
    while k < ws.len()
        invariant
            k <= ws.len(),
            forall|j: int| 0 <= j < k ==> !has_word(s@, #[trigger] texts(ws@)[j]),
        decreases ws.len() - k,
    {
        proof {
            assert(texts(ws@)[k as int] == ws@[k as int]@);
        }
        if contains_word(s, ws[k]) {
            return true;
        }
        k += 1;
    }
    false
}

/// `a` comes before `b` in the order of their characters.
pub open spec fn precedes(a: Seq<char>, b: Seq<char>) -> bool
    decreases a.len(),
{
    if b.len() == 0 {
        false
    } else if a.len() == 0 {
        true
    } else if a[0] != b[0] {
        a[0] < b[0]
    } else {
        precedes(a.drop_first(), b.drop_first())
    }
}

/// Whether `a` comes before `b` in the order of their characters.
pub fn comes_before(a: &str, b: &str) -> (r: bool)
    ensures
        r == precedes(a@, b@),
{
    let x = chars_of(a);
    let y = chars_of(b);
    let mut i: usize = 0;
    proof {
        assert(x@.skip(0) =~= x@);
        assert(y@.skip(0) =~= y@);
    }
    while i < x.len() && i < y.len() && x[i] == y[i]
        invariant
            i <= x.len(),
            i <= y.len(),
            precedes(x@, y@) == precedes(x@.skip(i as int), y@.skip(i as int)),
        decreases x.len() - i,
    {
        proof {
            assert(x@.skip(i as int).drop_first() =~= x@.skip(i + 1));
            assert(y@.skip(i as int).drop_first() =~= y@.skip(i + 1));
        }
        i += 1;
    }
    if i >= y.len() {
        false
    } else if i >= x.len() {
        true
    } else {
        x[i] < y[i]
    }
}

/// No text comes before itself.
pub proof fn precedes_is_strict(a: Seq<char>)
    ensures
        !precedes(a, a),
    decreases a.len(),
{
    if a.len() > 0 {
        precedes_is_strict(a.drop_first());
    }
}

/// Of two texts that differ, exactly one comes before the other.
pub proof fn precedes_is_total(a: Seq<char>, b: Seq<char>)
    ensures
        a != b ==> (precedes(a, b) <==> !precedes(b, a)),
        a == b ==> !precedes(a, b) && !precedes(b, a),
    decreases a.len(),
{
    if a == b {
        precedes_is_strict(a);
    } else if a.len() > 0 && b.len() > 0 && a[0] == b[0] {
        precedes_is_total(a.drop_first(), b.drop_first());
        if a.drop_first() == b.drop_first() {
            assert(a =~= seq![a[0]] + a.drop_first());
            assert(b =~= seq![b[0]] + b.drop_first());
        }
    } else if a.len() == 0 && b.len() == 0 {
        assert(a =~= b);
    }
}

/// What comes before a text comes before all that it comes before.
pub proof fn precedes_is_transitive(a: Seq<char>, b: Seq<char>, c: Seq<char>)
    requires
        precedes(a, b),
        precedes(b, c),
    ensures
        precedes(a, c),
    decreases a.len(),
{
    if a.len() > 0 && a[0] == b[0] && b[0] == c[0] {
        precedes_is_transitive(a.drop_first(), b.drop_first(), c.drop_first());
    }
}

/// The number that a character stands for as a decimal digit.
pub open spec fn digit(c: char) -> nat {
    (c as u32 - 0x30) as nat
}

/// `s` is made of decimal digits alone.
pub open spec fn all_digits(s: Seq<char>) -> bool {
    forall|i: int| 0 <= i < s.len() ==> '0' <= #[trigger] s[i] && s[i] <= '9'
}

/// The number that a row of decimal digits stands for.
pub open spec fn decimal(s: Seq<char>) -> nat
    decreases s.len(),
{
    if s.len() == 0 {
        0
    } else {
        10 * decimal(s.drop_last()) + digit(s.last())
    }
}

/// The number that a row of decimal digits stands for, where it is one.
pub open spec fn number(s: Seq<char>) -> Option<nat> {
    if s.len() > 0 && all_digits(s) {
        Some(decimal(s))
    } else {
        None
    }
}

/// The number that a text stands for: decimal digits, which a plus sign may precede.
pub open spec fn unsigned(s: Seq<char>) -> Option<nat> {
    if s.len() > 0 && s[0] == '+' {
        number(s.skip(1))
    } else {
        number(s)
    }
}

/// The number that a text stands for: decimal digits, which a sign may precede.
pub open spec fn signed(s: Seq<char>) -> Option<int> {
    if s.len() > 0 && s[0] == '-' {
        match number(s.skip(1)) {
            Some(n) => Some(-(n as int)),
            None => None,
        }
    } else {
        match unsigned(s) {
            Some(n) => Some(n as int),
            None => None,
        }
    }
}

/// The number that a decimal digit stands for.
fn digit_value(c: char) -> (r: Option<u64>)
    ensures
        r is Some <==> '0' <= c && c <= '9',
        r matches Some(d) ==> d == digit(c) && d <= 9,
{
    let n: u32 = c as u32;
    if 0x30 <= n && n <= 0x39 {
        Some((n - 0x30) as u64)
    } else {
        None
    }
}

/// The number that a row of decimal digits stands for, where it is one and at most `max`.
fn parse_number(d: &[char], max: u64) -> (r: Option<u64>)
    ensures
        match r {
            Some(v) => number(d@) == Some(v as nat) && v <= max,
            None => number(d@) is None || number(d@)->0 > max,
        },
{
    if d.len() == 0 {
        return None;
    }
    let mut v: u64 = 0;
    let mut k: usize = 0;
    let mut over: bool = false;
    while k < d.len()
        invariant
            k <= d.len(),
            d.len() > 0,
            all_digits(d@.take(k as int)),
            over ==> decimal(d@.take(k as int)) > max,
            !over ==> v == decimal(d@.take(k as int)) && v <= max,
        decreases d.len() - k,
    {
        let ch: char = d[k];
        let c: u64 = match digit_value(ch) {
            Some(c) => c,
            None => {
                proof {
                    assert(!all_digits(d@));
                }
                return None;
            },
        };
        let ghost before = d@.take(k as int);
        let ghost after = d@.take(k + 1);
        proof {
            assert(after.drop_last() =~= before);
            assert(after.last() == d@[k as int]);
            assert(decimal(after) == 10 * decimal(before) + digit(d@[k as int]));
            assert forall|i: int| 0 <= i < after.len() implies '0' <= #[trigger] after[i]
                && after[i] <= '9' by {
                if i < k {
                    assert(after[i] == before[i]);
                } else {
                    assert(after[i] == ch);
                }
            }
        }
        let x: u128 = v as u128 * 10 + c as u128;
        if over || x > max as u128 {
            over = true;
        } else {
            v = x as u64;
        }
        k += 1;
    }
    proof {
        assert(d@.take(d@.len() as int) =~= d@);
    }
    if over {
        None
    } else {
        Some(v)
    }
}

/// The number that `s` stands for, where it is one and at most `max`.
pub fn parse_unsigned(s: &[char], max: u64) -> (r: Option<u64>)
    ensures
        match r {
            Some(v) => unsigned(s@) == Some(v as nat) && v <= max,
            None => unsigned(s@) is None || unsigned(s@)->0 > max,
        },
{
    if s.len() > 0 && s[0] == '+' {
        let d = vstd::slice::slice_subrange(s, 1, s.len());
        proof {
            assert(d@ =~= s@.skip(1));
        }
        parse_number(d, max)
    } else {
        parse_number(s, max)
    }
}

/// The number that `s` stands for, where it is one that 64 bits hold.
pub fn parse_signed(s: &[char]) -> (r: Option<i64>)
    ensures
        match r {
            Some(v) => signed(s@) == Some(v as int),
            None => signed(s@) is None || signed(s@)->0 > i64::MAX || signed(s@)->0 < i64::MIN,
        },
{
    if s.len() > 0 && s[0] == '-' {
        let d = vstd::slice::slice_subrange(s, 1, s.len());
        proof {
            assert(d@ =~= s@.skip(1));
        }
        match parse_number(d, 0x8000_0000_0000_0000) {
            Some(n) => if n == 0x8000_0000_0000_0000 {
                Some(i64::MIN)
            } else {
                Some(-(n as i64))
            },
            None => None,
        }
    } else {
        match parse_unsigned(s, i64::MAX as u64) {
            Some(n) => Some(n as i64),
            None => None,
        }
    }
}

/// The text that a row of bytes holds as UTF-8. Trusted: std's `str::from_utf8`, which succeeds
/// on valid UTF-8 and on nothing else, and returns the text that the bytes encode.
#[verifier::external_body]
pub(crate) fn from_utf8(bytes: &[u8]) -> (r: Option<&str>)
    ensures
        r is Some <==> vstd::utf8::valid_utf8(bytes@),
        r matches Some(t) ==> t@ == vstd::utf8::decode_utf8(bytes@),
{
    match std::str::from_utf8(bytes) {
        Ok(t) => Some(t),
        Err(_) => None,
    }
}

/// What `String::from_utf8_lossy` returns for a row of bytes.
pub uninterp spec fn utf8_lossy(bytes: Seq<u8>) -> Seq<char>;

/// The text that a row of bytes holds as UTF-8, with replacement characters where it holds none.
/// Trusted: std's `String::from_utf8_lossy`, whose result depends on the bytes alone and which
/// replaces nothing in valid UTF-8.
#[verifier::external_body]
pub(crate) fn from_utf8_lossy(bytes: &[u8]) -> (r: String)
    ensures
        r@ == utf8_lossy(bytes@),
        vstd::utf8::valid_utf8(bytes@) ==> r@ == vstd::utf8::decode_utf8(bytes@),
{
    String::from_utf8_lossy(bytes).into_owned()
}

/// A text stands in another just where that is made of something, the text, and something.
pub proof fn occurrence_splits(s: Seq<char>, p: Seq<char>, head: Seq<char>, tail: Seq<char>)
    ensures
        s == head + p + tail ==> occurs(s, p) && occurs_at(s, p, head.len() as int),
        occurs(s, p) ==> exists|a: Seq<char>, b: Seq<char>| #[trigger] (a + p + b) == s,
{
    if s == head + p + tail {
        assert(s.subrange(head.len() as int, (head.len() + p.len()) as int) =~= p);
        assert(occurs_at(s, p, head.len() as int));
    }
    if occurs(s, p) {
        let i = choose|i: int| occurs_at(s, p, i);
        assert(s.take(i) + p + s.skip(i + p.len()) =~= s);
    }
}

/// The first occurrence of a text is where it stands and before which it does not; there is none
/// just where the text does not stand anywhere.
pub proof fn first_occurrence_is_first(s: Seq<char>, p: Seq<char>)
    ensures
        match first_occurrence(s, p) {
            Some(i) => 0 <= i && i + p.len() <= s.len() && s.subrange(i, i + p.len()) == p
                && forall|j: int| 0 <= j < i ==> !(#[trigger] s.subrange(j, j + p.len()) == p),
            None => forall|j: int|
                0 <= j && j + p.len() <= s.len() ==> !(#[trigger] s.subrange(j, j + p.len()) == p),
        },
{
    if occurs(s, p) {
        let i = choose|i: int| occurs_at(s, p, i);
        let first = least_occurrence(s, p, i);
        occurrence_is_first(s, p, 0, first);
        assert forall|j: int| 0 <= j < first implies !(#[trigger] s.subrange(j, j + p.len())
            == p) by {
            assert(!occurs_at(s, p, j));
        }
    } else {
        no_first_occurrence(s, p, 0);
        assert forall|j: int| 0 <= j && j + p.len() <= s.len() implies !(#[trigger] s.subrange(
            j,
            j + p.len(),
        ) == p) by {
            assert(!occurs_at(s, p, j));
        }
    }
}

/// Where a text stands somewhere, there is a first such place.
proof fn least_occurrence(s: Seq<char>, p: Seq<char>, i: int) -> (first: int)
    requires
        occurs_at(s, p, i),
    ensures
        0 <= first <= i,
        occurs_at(s, p, first),
        forall|j: int| 0 <= j < first ==> !occurs_at(s, p, j),
    decreases i,
{
    if exists|j: int| 0 <= j < i && occurs_at(s, p, j) {
        let j = choose|j: int| 0 <= j < i && occurs_at(s, p, j);
        least_occurrence(s, p, j)
    } else {
        i
    }
}

/// White space is the space, the tabs, the line feed, the form feed and the carriage return; the
/// next line, the no-break spaces, the Ogham space mark, the spaces of fixed width, the separators
/// of lines and paragraphs, the mathematical and the ideographic space; and nothing else.
pub proof fn white_space_is_blank(c: char)
    ensures
        white_space(c) <==> c == ' ' || c == '\t' || c == '\n' || c == '\u{b}' || c == '\u{c}' || c
            == '\r' || c == '\u{85}' || c == '\u{a0}' || c == '\u{1680}' || '\u{2000}' <= c && c
            <= '\u{200a}' || c == '\u{2028}' || c == '\u{2029}' || c == '\u{202f}' || c
            == '\u{205f}' || c == '\u{3000}',
{
}

/// Trimming takes off all white space at either end, and nothing else: what is left neither begins
/// nor ends with white space, and all that is gone is white space.
pub proof fn trimming_takes_white_space(s: Seq<char>)
    ensures
        trimmed(s).len() > 0 ==> !white_space(trimmed(s)[0]) && !white_space(trimmed(s).last()),
        exists|a: Seq<char>, b: Seq<char>| #[trigger]
            (a + trimmed(s) + b) == s && (forall|i: int|
                0 <= i < a.len() ==> white_space(#[trigger] a[i])) && (forall|i: int|
                0 <= i < b.len() ==> white_space(#[trigger] b[i])),
{
    let a = start_taken(s);
    let inner = trimmed_start(s);
    let b = end_taken(inner);
    assert(a + trimmed(s) + b =~= a + (trimmed(s) + b));
    assert(a + trimmed(s) + b == s);
    if trimmed(s).len() > 0 {
        assert(trimmed(s)[0] == inner[0]);
    }
}

proof fn start_taken(s: Seq<char>) -> (a: Seq<char>)
    ensures
        a + trimmed_start(s) == s,
        forall|i: int| 0 <= i < a.len() ==> white_space(#[trigger] a[i]),
        trimmed_start(s).len() > 0 ==> !white_space(trimmed_start(s)[0]),
    decreases s.len(),
{
    if s.len() > 0 && white_space(s[0]) {
        let rest = start_taken(s.drop_first());
        let a = seq![s[0]] + rest;
        assert(a + trimmed_start(s) =~= seq![s[0]] + (rest + trimmed_start(s)));
        assert(seq![s[0]] + s.drop_first() =~= s);
        assert forall|i: int| 0 <= i < a.len() implies white_space(#[trigger] a[i]) by {
            if i > 0 {
                assert(a[i] == rest[i - 1]);
            }
        }
        a
    } else {
        assert(Seq::<char>::empty() + s =~= s);
        Seq::empty()
    }
}

proof fn end_taken(s: Seq<char>) -> (b: Seq<char>)
    ensures
        trimmed_end(s) + b == s,
        forall|i: int| 0 <= i < b.len() ==> white_space(#[trigger] b[i]),
        trimmed_end(s).len() > 0 ==> !white_space(trimmed_end(s).last()) && trimmed_end(s)[0]
            == s[0],
    decreases s.len(),
{
    if s.len() > 0 && white_space(s.last()) {
        let rest = end_taken(s.drop_last());
        let b = rest.push(s.last());
        assert(trimmed_end(s) + b =~= (trimmed_end(s) + rest).push(s.last()));
        assert(s.drop_last().push(s.last()) =~= s);
        b
    } else {
        assert(s + Seq::<char>::empty() =~= s);
        Seq::empty()
    }
}

/// Lines are what stands between line feeds: a text that begins with a line and a line feed has
/// that line first and then the lines of the rest, and a text without line feeds is one line.
pub proof fn lines_are_between_line_feeds(line: Seq<char>, rest: Seq<char>)
    requires
        forall|i: int| 0 <= i < line.len() ==> #[trigger] line[i] != '\n',
    ensures
        line_pieces(line) == seq![line],
        line_pieces(line + seq!['\n'] + rest) == seq![line] + line_pieces(rest),
{
    let s = line + seq!['\n'] + rest;
    position_unique(line, '\n', line.len() as int);
    assert(s[line.len() as int] == '\n');
    assert forall|j: int| 0 <= j < line.len() implies s[j] != '\n' by {
        assert(s[j] == line[j]);
    }
    position_unique(s, '\n', line.len() as int);
    assert(s.take(line.len() as int) =~= line);
    assert(s.skip(line.len() as int + 1) =~= rest);
}

/// Putting ASCII letters in lower case changes the letters `A` to `Z` alone, each to its own small
/// letter, and what is in lower case stays as it is.
pub proof fn ascii_lower_case_is_small(s: Seq<char>, i: int)
    requires
        0 <= i < s.len(),
    ensures
        ascii_lowered(s).len() == s.len(),
        !('A' <= s[i] && s[i] <= 'Z') ==> ascii_lowered(s)[i] == s[i],
        'A' <= s[i] && s[i] <= 'Z' ==> ascii_lowered(s)[i] as u32 - 'a' as u32 == s[i] as u32 - 'A'
            as u32,
        ascii_lowered(ascii_lowered(s)) == ascii_lowered(s),
{
    assert(ascii_lowered(ascii_lowered(s)) =~= ascii_lowered(s));
}

/// A word is found just where it stands with nothing around it that is a letter or a number.
pub proof fn words_stand_by_themselves(head: Seq<char>, w: Seq<char>, tail: Seq<char>)
    requires
        w.len() > 0,
        forall|i: int| 0 <= i < w.len() ==> 'a' <= #[trigger] w[i] && w[i] <= 'z',
        forall|i: int| 0 <= i < head.len() ==> (#[trigger] head[i] as u32) < 0x80,
        forall|i: int| 0 <= i < tail.len() ==> (#[trigger] tail[i] as u32) < 0x80,
    ensures
        (head.len() == 0 || head.last() == ' ' || head.last() == '-' || head.last() == '_'
            || head.last() == '[' || head.last() == '|') && (tail.len() == 0 || tail[0] == ' '
            || tail[0] == '-' || tail[0] == '_' || tail[0] == ']' || tail[0] == '|') ==> has_word(
            head + w + tail,
            w,
        ),
        !occurs(head + w + tail, w) ==> !has_word(head + w + tail, w),
{
    let s = head + w + tail;
    occurrence_splits(s, w, head, tail);
    if head.len() > 0 {
        assert(s[head.len() - 1] == head.last());
    }
    if tail.len() > 0 {
        assert(s[(head.len() + w.len()) as int] == tail[0]);
    }
    if (head.len() == 0 || head.last() == ' ' || head.last() == '-' || head.last() == '_'
        || head.last() == '[' || head.last() == '|') && (tail.len() == 0 || tail[0] == ' '
        || tail[0] == '-' || tail[0] == '_' || tail[0] == ']' || tail[0] == '|') {
        assert(word_at(s, w, head.len() as int));
    }
}

/// A word that is part of a longer row of letters and digits wherever it stands is not found.
pub proof fn words_are_not_parts(s: Seq<char>, w: Seq<char>)
    requires
        w.len() > 0,
        forall|i: int|
            occurs_at(s, w, i) ==> i > 0 && ('a' <= s[i - 1] && s[i - 1] <= 'z' || 'A' <= s[i - 1]
                && s[i - 1] <= 'Z' || '0' <= s[i - 1] && s[i - 1] <= '9') || i + w.len() < s.len()
                && ('a' <= s[i + w.len()] && s[i + w.len()] <= 'z' || 'A' <= s[i + w.len()] && s[i
                + w.len()] <= 'Z' || '0' <= s[i + w.len()] && s[i + w.len()] <= '9'),
    ensures
        !has_word(s, w),
{
}

/// A row of characters of which one is neither a letter nor a number, as a space or a hyphen, is no
/// word, and is not found as one.
pub proof fn words_hold_no_other_characters(s: Seq<char>, w: Seq<char>, k: int)
    requires
        0 <= k < w.len(),
        (w[k] as u32) < 0x80,
        !('a' <= w[k] && w[k] <= 'z'),
        !('A' <= w[k] && w[k] <= 'Z'),
        !('0' <= w[k] && w[k] <= '9'),
    ensures
        !has_word(s, w),
{
}

/// Beyond ASCII the letters and numbers are those that the standard library knows: next to one of
/// them, wherever it stands, a word is not found.
pub proof fn foreign_letters_are_letters(s: Seq<char>, w: Seq<char>)
    requires
        forall|i: int|
            occurs_at(s, w, i) ==> i > 0 && s[i - 1] as u32 >= 0x80 && alphanumeric(s[i - 1]) || i
                + w.len() < s.len() && s[i + w.len()] as u32 >= 0x80 && alphanumeric(
                s[i + w.len()],
            ),
    ensures
        !has_word(s, w),
{
}

/// A word of ASCII letters is found between two characters beyond ASCII that are neither letters
/// nor numbers.
pub proof fn foreign_signs_part_words(a: char, w: Seq<char>, b: char)
    requires
        a as u32 >= 0x80,
        b as u32 >= 0x80,
        !alphanumeric(a),
        !alphanumeric(b),
        forall|k: int| 0 <= k < w.len() ==> 'a' <= #[trigger] w[k] && w[k] <= 'z',
    ensures
        has_word(seq![a] + w + seq![b], w),
{
    let s = seq![a] + w + seq![b];
    assert(s.subrange(1, 1 + w.len() as int) =~= w);
    assert(word_at(s, w, 1));
}

/// Of two texts that first differ at one place, the one with the smaller character there comes
/// first; and the beginning of a text comes before the text.
pub proof fn the_first_difference_decides(a: Seq<char>, b: Seq<char>, i: int)
    requires
        0 <= i <= a.len(),
        i <= b.len(),
        forall|j: int| 0 <= j < i ==> a[j] == b[j],
    ensures
        i < a.len() && i < b.len() && a[i] < b[i] ==> precedes(a, b) && !precedes(b, a),
        i == a.len() && i < b.len() ==> precedes(a, b) && !precedes(b, a),
    decreases i,
{
    if i > 0 {
        assert forall|j: int| 0 <= j < i - 1 implies a.drop_first()[j] == b.drop_first()[j] by {
            assert(a[j + 1] == b[j + 1]);
        }
        assert(a[0] == b[0]);
        the_first_difference_decides(a.drop_first(), b.drop_first(), i - 1);
    }
}

/// Decimal digits are read as in everyday life: each further digit counts ten times what was there
/// before, and the digit. A plus sign changes nothing, and a minus sign is for signed numbers
/// alone. What is empty or holds anything but digits is no number.
pub proof fn numbers_are_decimal(s: Seq<char>, c: char)
    requires
        s.len() > 0,
        '0' <= s[0] && s[0] <= '9',
    ensures
        unsigned(Seq::empty()) is None,
        signed(Seq::empty()) is None,
        unsigned(seq![c]) is Some <==> '0' <= c && c <= '9',
        '0' <= c && c <= '9' ==> unsigned(seq![c]) == Some((c as u32 - '0' as u32) as nat),
        '0' <= c && c <= '9' && unsigned(s) is Some ==> unsigned(s.push(c)) == Some(
            (10 * unsigned(s)->0 + (c as u32 - '0' as u32)) as nat,
        ),
        !('0' <= c && c <= '9') ==> unsigned(s.push(c)) is None,
        unsigned(s) is None ==> unsigned(s.push(c)) is None,
        unsigned(seq!['+'] + s) == unsigned(s),
        unsigned(seq!['-'] + s) is None,
        signed(s) == (match unsigned(s) {
            Some(n) => Some(n as int),
            None => None,
        }),
        signed(seq!['-'] + s) == (match unsigned(s) {
            Some(n) => Some(-(n as int)),
            None => None,
        }),
{
    let one = seq![c];
    assert(one[0] == c);
    assert(one.drop_last() =~= Seq::<char>::empty());
    reveal_with_fuel(decimal, 3);
    assert(one.skip(1) =~= Seq::<char>::empty());
    assert(all_digits(one) <==> '0' <= c && c <= '9');
    let more = s.push(c);
    assert(more.drop_last() =~= s);
    assert(more[0] == s[0]);
    assert(more[s.len() as int] == c);
    if all_digits(more) {
        assert forall|i: int| 0 <= i < s.len() implies '0' <= #[trigger] s[i] && s[i] <= '9' by {
            assert(more[i] == s[i]);
        }
    }
    if all_digits(s) && '0' <= c && c <= '9' {
        assert(all_digits(more));
    }
    assert((seq!['+'] + s).skip(1) =~= s);
    assert((seq!['-'] + s).skip(1) =~= s);
    assert((seq!['-'] + s)[0] == '-');
    assert(!all_digits(seq!['-'] + s));
}

/// Of the characters at the end of a text, all that are `c` are taken off, and nothing else.
pub proof fn trailing_characters_are_taken(s: Seq<char>, c: char)
    ensures
        without_trailing(s, c).len() > 0 ==> without_trailing(s, c).last() != c,
        without_trailing(s, c).len() <= s.len(),
        s.take(without_trailing(s, c).len() as int) == without_trailing(s, c),
        forall|i: int| without_trailing(s, c).len() <= i < s.len() ==> #[trigger] s[i] == c,
    decreases s.len(),
{
    if s.len() > 0 && s.last() == c {
        trailing_characters_are_taken(s.drop_last(), c);
        let kept = without_trailing(s, c);
        assert(s.take(kept.len() as int) =~= s.drop_last().take(kept.len() as int));
        assert forall|i: int| kept.len() <= i < s.len() implies #[trigger] s[i] == c by {
            if i < s.len() - 1 {
                assert(s.drop_last()[i] == s[i]);
            }
        }
    } else {
        assert(s.take(s.len() as int) =~= s);
    }
}

/// The first text of which something holds is one of the list of which it holds, and it holds of
/// none before it.
pub proof fn the_first_is_found(list: Seq<Seq<char>>, p: spec_fn(Seq<char>) -> bool)
    ensures
        match first_where(list, p) {
            Some(name) => exists|k: int|
                0 <= k < list.len() && #[trigger] list[k] == name && p(name) && forall|j: int|
                    0 <= j < k ==> !p(#[trigger] list[j]),
            None => forall|j: int| 0 <= j < list.len() ==> !p(#[trigger] list[j]),
        },
    decreases list.len(),
{
    if list.len() > 0 && !p(list[0]) {
        let rest = list.drop_first();
        the_first_is_found(rest, p);
        match first_where(list, p) {
            Some(name) => {
                let k = choose|k: int|
                    0 <= k < rest.len() && #[trigger] rest[k] == name && p(name) && forall|j: int|
                        0 <= j < k ==> !p(#[trigger] rest[j]);
                assert(list[k + 1] == name);
                assert forall|j: int| 0 <= j < k + 1 implies !p(#[trigger] list[j]) by {
                    if j > 0 {
                        assert(!p(rest[j - 1]));
                    }
                }
            },
            None => {
                assert forall|j: int| 0 <= j < list.len() implies !p(#[trigger] list[j]) by {
                    if j > 0 {
                        assert(!p(rest[j - 1]));
                    }
                }
            },
        }
    } else if list.len() > 0 {
        assert(list[0] == list[0] && p(list[0]));
    }
}

/// The lower-case form of a text of ASCII and Chinese characters has no capital letters, and
/// differs from the text in those alone.
pub proof fn lower_case_has_no_capitals(s: Seq<char>, i: int)
    requires
        forall|k: int|
            0 <= k < s.len() ==> (#[trigger] s[k] as u32) < 0x80 || 0x4e00 <= s[k] as u32
                <= 0x9fff,
        0 <= i < s.len(),
    ensures
        lowered(s).len() == s.len(),
        !('A' <= lowered(s)[i] && lowered(s)[i] <= 'Z'),
        'A' <= s[i] && s[i] <= 'Z' ==> lowered(s)[i] as u32 == s[i] as u32 + 32,
        !('A' <= s[i] && s[i] <= 'Z') ==> lowered(s)[i] == s[i],
{
}

/// Texts that differ at most in the case of ASCII letters are equally long, and differ at no place
/// but in one being the capital of the other; and such texts are all taken for the same.
pub proof fn case_is_all_that_is_ignored(a: Seq<char>, b: Seq<char>)
    ensures
        same_but_ascii_case(a, b) <==> a.len() == b.len() && forall|i: int|
            #![trigger a[i]]
            #![trigger b[i]]
            0 <= i < a.len() ==> a[i] == b[i] || 'A' <= a[i] && a[i] <= 'Z' && b[i] as u32 == a[i]
                as u32 + 32 || 'A' <= b[i] && b[i] <= 'Z' && a[i] as u32 == b[i] as u32 + 32,
{
    let x = ascii_lowered(a);
    let y = ascii_lowered(b);
    if same_but_ascii_case(a, b) {
        assert(x.len() == a.len() && y.len() == b.len());
        assert forall|i: int| 0 <= i < a.len() implies a[i] == b[i] || 'A' <= a[i] && a[i] <= 'Z'
            && b[i] as u32 == a[i] as u32 + 32 || 'A' <= b[i] && b[i] <= 'Z' && a[i] as u32 == b[i]
            as u32 + 32 by {
            assert(x[i] == ascii_lower(a[i]) && y[i] == ascii_lower(b[i]));
        }
    }
    if a.len() == b.len() && forall|i: int|
        #![trigger a[i]]
        #![trigger b[i]]
        0 <= i < a.len() ==> a[i] == b[i] || 'A' <= a[i] && a[i] <= 'Z' && b[i] as u32 == a[i]
            as u32 + 32 || 'A' <= b[i] && b[i] <= 'Z' && a[i] as u32 == b[i] as u32 + 32 {
        assert forall|i: int| 0 <= i < x.len() implies #[trigger] x[i] == y[i] by {
            assert(a[i] == a[i]);
        }
        assert(x =~= y);
    }
}

} // verus!
