use vstd::prelude::*;

verus! {

/// Whether `c` has the Unicode `White_Space` property, as `char::is_whitespace`
/// decides it: the 25 code points of that property.
pub open spec fn white_space(c: char) -> bool {
    let u = c as u32;
    (0x09 <= u <= 0x0d) || u == 0x20 || u == 0x85 || u == 0xa0 || u == 0x1680 || (0x2000 <= u
        <= 0x200a) || u == 0x2028 || u == 0x2029 || u == 0x202f || u == 0x205f || u == 0x3000
}

/// The characters that `String::from_utf8_lossy` makes of `b`.
pub uninterp spec fn utf8_lossy(b: Seq<u8>) -> Seq<char>;

/// Decides `white_space`.
pub(crate) fn is_white_space(c: char) -> (r: bool)
    ensures
        r == white_space(c),
{
    let u = c as u32;
    (0x09 <= u && u <= 0x0d) || u == 0x20 || u == 0x85 || u == 0xa0 || u == 0x1680 || (0x2000
        <= u && u <= 0x200a) || u == 0x2028 || u == 0x2029 || u == 0x202f || u == 0x205f || u
        == 0x3000
}

/// Relies on `String::from_utf8_lossy`: invalid sequences become U+FFFD,
/// valid UTF-8 (so ASCII, byte for character, and no bytes at all) is kept.
#[verifier::external_body]
pub(crate) fn decode_utf8_lossy(b: &[u8]) -> (r: Vec<char>)
    ensures
        r@ == utf8_lossy(b@),
        b@.len() == 0 ==> r@.len() == 0,
        (forall|i: int| 0 <= i < b@.len() ==> #[trigger] b@[i] < 0x80) ==> r@ == b@.map_values(
            |x: u8| x as char,
        ),
{
    String::from_utf8_lossy(b).chars().collect()
}

/// Relies on `str::chars`: the characters of `s`, in order.
#[verifier::external_body]
pub(crate) fn chars_of(s: &str) -> (r: Vec<char>)
    ensures
        r@ == s@,
{
    s.chars().collect()
}

/// Relies on `String`'s `FromIterator<&char>`: the string of the characters `cs`.
#[verifier::external_body]
pub(crate) fn string_of(cs: &[char]) -> (r: String)
    ensures
        r@ == cs@,
{
    cs.iter().collect()
}

/// Classes of characters that get trimmed from the ends of a text.
#[derive(Clone, Copy)]
pub enum CharClass {
    WhiteSpace,
    Paren,
    Quote,
    Backtick,
}

/// Whether `c` belongs to the class `k`.
pub open spec fn in_class(c: char, k: CharClass) -> bool {
    match k {
        CharClass::WhiteSpace => white_space(c),
        CharClass::Paren => c == '(' || c == ')',
        CharClass::Quote => c == '\'',
        CharClass::Backtick => c == '`',
    }
}

/// Decides `in_class`.
fn is_in_class(c: char, k: CharClass) -> (r: bool)
    ensures
        r == in_class(c, k),
{
    match k {
        CharClass::WhiteSpace => is_white_space(c),
        CharClass::Paren => c == '(' || c == ')',
        CharClass::Quote => c == '\'',
        CharClass::Backtick => c == '`',
    }
}

/// `s` without the characters of class `k` at its start.
pub open spec fn trim_leading(s: Seq<char>, k: CharClass) -> Seq<char>
    decreases s.len(),
{
    if s.len() > 0 && in_class(s[0], k) {
        trim_leading(s.skip(1), k)
    } else {
        s
    }
}

/// `s` without the characters of class `k` at its end.
pub open spec fn trim_trailing(s: Seq<char>, k: CharClass) -> Seq<char>
    decreases s.len(),
{
    if s.len() > 0 && in_class(s.last(), k) {
        trim_trailing(s.drop_last(), k)
    } else {
        s
    }
}

/// `s` without the characters of class `k` at either end.
pub open spec fn trimmed(s: Seq<char>, k: CharClass) -> Seq<char> {
    trim_trailing(trim_leading(s, k), k)
}

/// The characters of `cs` from `a` up to `b`.
pub(crate) fn sub_chars(cs: &[char], a: usize, b: usize) -> (r: Vec<char>)
    requires
        a <= b <= cs@.len(),
    ensures
        r@ == cs@.subrange(a as int, b as int),
{
    let mut out: Vec<char> = Vec::new();
    let mut i = a;
    while i < b
        invariant
            a <= i <= b <= cs@.len(),
            out@ == cs@.subrange(a as int, i as int),
        decreases b - i,
    {
        out.push(cs[i]);
        i = i + 1;
        assert(out@ =~= cs@.subrange(a as int, i as int));
    }
    out
}

/// Removes the characters of class `k` from both ends of `cs`.
pub(crate) fn trim_class(cs: &[char], k: CharClass) -> (r: Vec<char>)
    ensures
        r@ == trimmed(cs@, k),
{
    let ghost s = cs@;
    let mut a: usize = 0;
    assert(s.subrange(0, s.len() as int) =~= s);
    while a < cs.len() && is_in_class(cs[a], k)
        invariant
            a <= s.len(),
            s == cs@,
            trim_leading(s, k) == trim_leading(s.subrange(a as int, s.len() as int), k),
        decreases s.len() - a,
    {
        assert(s.subrange(a as int, s.len() as int).skip(1) =~= s.subrange(a + 1, s.len() as int));
        a = a + 1;
    }
    assert(trim_leading(s, k) == s.subrange(a as int, s.len() as int));
    let ghost t = s.subrange(a as int, s.len() as int);
    let mut b: usize = cs.len();
    while b > a && is_in_class(cs[b - 1], k)
        invariant
            a <= b <= s.len(),
            s == cs@,
            t == s.subrange(a as int, s.len() as int),
            trim_trailing(t, k) == trim_trailing(s.subrange(a as int, b as int), k),
        decreases b,
    {
        assert(s.subrange(a as int, b as int).drop_last() =~= s.subrange(a as int, b - 1));
        b = b - 1;
    }
    sub_chars(cs, a, b)
}

/// The pieces of `s` between the occurrences of `sep`, as `str::split` yields them.
pub open spec fn split_on(s: Seq<char>, sep: char) -> Seq<Seq<char>>
    decreases s.len(),
{
    if s.len() == 0 {
        seq![Seq::<char>::empty()]
    } else {
        let prev = split_on(s.drop_last(), sep);
        if s.last() == sep {
            prev.push(Seq::<char>::empty())
        } else {
            prev.update(prev.len() - 1, prev.last().push(s.last()))
        }
    }
}

pub(crate) proof fn lemma_split_nonempty(s: Seq<char>, sep: char)
    ensures
        split_on(s, sep).len() >= 1,
    decreases s.len(),
{
    if s.len() > 0 {
        lemma_split_nonempty(s.drop_last(), sep);
    }
}

/// The character sequences held by `v`.
pub open spec fn char_views(v: Seq<Vec<char>>) -> Seq<Seq<char>> {
    v.map_values(|p: Vec<char>| p@)
}

/// Splits `cs` at every `sep`.
pub(crate) fn split_chars(cs: &[char], sep: char) -> (r: Vec<Vec<char>>)
    ensures
        char_views(r@) == split_on(cs@, sep),
{
    let ghost s = cs@;
    let mut pieces: Vec<Vec<char>> = Vec::new();
    let mut cur: Vec<char> = Vec::new();
    let mut i: usize = 0;
    assert(s.take(0) =~= Seq::<char>::empty());
    assert(char_views(pieces@).push(cur@) =~= split_on(s.take(0), sep));
    while i < cs.len()
        invariant
            i <= s.len(),
            s == cs@,
            char_views(pieces@).push(cur@) == split_on(s.take(i as int), sep),
        decreases s.len() - i,
    {
        let c = cs[i];
        let ghost prev = split_on(s.take(i as int), sep);
        assert(s.take(i + 1).drop_last() =~= s.take(i as int));
        if c == sep {
            let ghost cur_before = cur;
            let ghost old_pieces = pieces@;
            pieces.push(cur);
            cur = Vec::new();
            assert(pieces@ == old_pieces.push(cur_before));
            assert(char_views(pieces@) =~= char_views(old_pieces).push(prev.last()));
            assert(char_views(pieces@).push(cur@) =~= prev.push(Seq::<char>::empty()));
        } else {
            cur.push(c);
            assert(char_views(pieces@).push(cur@) =~= prev.update(
                prev.len() - 1,
                prev.last().push(c),
            ));
        }
        i = i + 1;
    }
    assert(s.take(s.len() as int) =~= s);
    let ghost before = pieces@;
    let ghost last = cur;
    pieces.push(cur);
    assert(pieces@ == before.push(last));
    assert(char_views(pieces@) =~= char_views(before).push(last@));
    pieces
}

/// Index of the first `c` in `s` at or after `i`.
pub open spec fn index_of_from(s: Seq<char>, c: char, i: nat) -> Option<nat>
    decreases s.len() - i,
{
    if i >= s.len() {
        None
    } else if s[i as int] == c {
        Some(i)
    } else {
        index_of_from(s, c, i + 1)
    }
}

/// Index of the first `c` in `s`.
pub open spec fn index_of(s: Seq<char>, c: char) -> Option<nat> {
    index_of_from(s, c, 0)
}

proof fn lemma_index_of_from_bound(s: Seq<char>, c: char, i: nat)
    ensures
        index_of_from(s, c, i) matches Some(j) ==> i <= j < s.len() && s[j as int] == c,
    decreases s.len() - i,
{
    if i < s.len() && s[i as int] != c {
        lemma_index_of_from_bound(s, c, i + 1);
    }
}

/// Finds the first `c` in `cs`.
pub(crate) fn find_char(cs: &[char], c: char) -> (r: Option<usize>)
    ensures
        r matches Some(j) ==> j < cs@.len() && cs@[j as int] == c,
        match r {
            Some(j) => index_of(cs@, c) == Some(j as nat),
            None => index_of(cs@, c) is None,
        },
{
    let mut i: usize = 0;
    while i < cs.len()
        invariant
            i <= cs@.len(),
            index_of(cs@, c) == index_of_from(cs@, c, i as nat),
        decreases cs@.len() - i,
    {
        if cs[i] == c {
            return Some(i);
        }
        i = i + 1;
    }
    None
}

/// Whether `a` and `b` hold the same characters.
pub(crate) fn chars_equal(a: &[char], b: &[char]) -> (r: bool)
    ensures
        r == (a@ == b@),
{
    if a.len() != b.len() {
        return false;
    }
    let mut i: usize = 0;
    while i < a.len()
        invariant
            i <= a@.len(),
            a@.len() == b@.len(),
            forall|k: int| 0 <= k < i ==> a@[k] == b@[k],
        decreases a@.len() - i,
    {
        if a[i] != b[i] {
            return false;
        }
        i = i + 1;
    }
    assert(a@ =~= b@);
    true
}

/// Whether `cs` holds exactly the characters of `lit`.
pub(crate) fn chars_are(cs: &[char], lit: &str) -> (r: bool)
    ensures
        r == (cs@ == lit@),
{
    let l = chars_of(lit);
    chars_equal(cs, l.as_slice())
}

} // verus!
