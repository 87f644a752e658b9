//! Character-sequence primitives: the trimming, splitting and matching that
//! the line formats of this crate are built from, each stated over `Seq<char>`.
use vstd::prelude::*;

verus! {

/// `char::is_whitespace`: the Unicode `White_Space` property.
pub open spec fn is_white_space(c: char) -> bool {
    ||| ('\u{9}' <= c && c <= '\u{d}')
    ||| c == ' '
    ||| c == '\u{85}'
    ||| c == '\u{a0}'
    ||| c == '\u{1680}'
    ||| ('\u{2000}' <= c && c <= '\u{200a}')
    ||| c == '\u{2028}'
    ||| c == '\u{2029}'
    ||| c == '\u{202f}'
    ||| c == '\u{205f}'
    ||| c == '\u{3000}'
}

/// A set of characters that trimming removes.
#[derive(Clone, Copy, PartialEq, Eq, Structural)]
pub enum CharClass {
    WhiteSpace,
    Exactly(char),
}

impl CharClass {
    pub open spec fn holds(self, c: char) -> bool {
        match self {
            CharClass::WhiteSpace => is_white_space(c),
            CharClass::Exactly(x) => c == x,
        }
    }

    pub fn test(&self, c: char) -> (b: bool)
        ensures
            b == self.holds(c),
    {
        match self {
            CharClass::WhiteSpace => {
                ('\u{9}' <= c && c <= '\u{d}') || c == ' ' || c == '\u{85}' || c == '\u{a0}'
                    || c == '\u{1680}' || ('\u{2000}' <= c && c <= '\u{200a}') || c == '\u{2028}'
                    || c == '\u{2029}' || c == '\u{202f}' || c == '\u{205f}' || c == '\u{3000}'
            },
            CharClass::Exactly(x) => c == *x,
        }
    }
}

/// `s` without its leading characters of class `cls`.
pub open spec fn trim_start_by(s: Seq<char>, cls: CharClass) -> Seq<char>
    decreases s.len(),
{
    if s.len() > 0 && cls.holds(s[0]) {
        trim_start_by(s.drop_first(), cls)
    } else {
        s
    }
}

/// `s` without its trailing characters of class `cls`.
pub open spec fn trim_end_by(s: Seq<char>, cls: CharClass) -> Seq<char>
    decreases s.len(),
{
    if s.len() > 0 && cls.holds(s.last()) {
        trim_end_by(s.drop_last(), cls)
    } else {
        s
    }
}

/// `s` without leading and trailing characters of class `cls` (`str::trim_matches`).
pub open spec fn trim_by(s: Seq<char>, cls: CharClass) -> Seq<char> {
    trim_end_by(trim_start_by(s, cls), cls)
}

/// `str::trim`.
pub open spec fn trim(s: Seq<char>) -> Seq<char> {
    trim_by(s, CharClass::WhiteSpace)
}

/// `str::starts_with`.
pub open spec fn starts_with(s: Seq<char>, p: Seq<char>) -> bool {
    p.len() <= s.len() && s.take(p.len() as int) == p
}

/// `str::trim_start_matches` with a string pattern: every leading copy of `p` removed.
pub open spec fn trim_start_matches(s: Seq<char>, p: Seq<char>) -> Seq<char>
    decreases s.len(),
{
    if p.len() > 0 && starts_with(s, p) {
        trim_start_matches(s.skip(p.len() as int), p)
    } else {
        s
    }
}

/// `str::contains` with a string pattern.
pub open spec fn contains_text(s: Seq<char>, p: Seq<char>) -> bool {
    exists|i: int| 0 <= i && i + p.len() <= s.len() && #[trigger] s.subrange(i, i + p.len()) == p
}

/// `str::split` on one character: the pieces between the separators, in order.
pub open spec fn split_char(s: Seq<char>, sep: char) -> Seq<Seq<char>>
    decreases s.len(),
{
    if s.len() == 0 {
        seq![Seq::<char>::empty()]
    } else {
        let prev = split_char(s.drop_last(), sep);
        if s.last() == sep {
            prev.push(Seq::<char>::empty())
        } else {
            prev.update(prev.len() - 1, prev.last().push(s.last()))
        }
    }
}

/// `i` is the position of the first `c` in `s`.
pub open spec fn is_first_index(s: Seq<char>, c: char, i: int) -> bool {
    &&& 0 <= i < s.len()
    &&& s[i] == c
    &&& forall|k: int| 0 <= k < i ==> s[k] != c
}

/// `str::split_once` on one character.
pub open spec fn split_once(s: Seq<char>, c: char) -> Option<(Seq<char>, Seq<char>)> {
    if s.contains(c) {
        let i = choose|i: int| is_first_index(s, c, i);
        Some((s.take(i), s.skip(i + 1)))
    } else {
        None
    }
}

/// The concatenation of `parts` with `sep` between them (`join`).
pub open spec fn join(parts: Seq<Seq<char>>, sep: Seq<char>) -> Seq<char>
    decreases parts.len(),
{
    if parts.len() == 0 {
        Seq::<char>::empty()
    } else if parts.len() == 1 {
        parts[0]
    } else {
        join(parts.drop_last(), sep) + sep + parts.last()
    }
}

/// The views of `v` are, one by one, the sequences of `s`.
pub open spec fn views_are(v: Seq<Vec<char>>, s: Seq<Seq<char>>) -> bool {
    &&& v.len() == s.len()
    &&& forall|i: int| 0 <= i < v.len() ==> (#[trigger] v[i])@ == s[i]
}

/// The views of `v` are, one by one, the sequences of `s`.
pub open spec fn string_views_are(v: Seq<String>, s: Seq<Seq<char>>) -> bool {
    &&& v.len() == s.len()
    &&& forall|i: int| 0 <= i < v.len() ==> (#[trigger] v[i])@ == s[i]
}

/// The characters of `s`, in order.
pub fn chars_of(s: &str) -> (res: Vec<char>)
    ensures
        res@ == s@,
{
    let mut res: Vec<char> = Vec::new();
    for c in it: s.chars()
        invariant
            res@ == it.seq().take(it.index() as int),
            it.seq() == s@,
    {
        res.push(c);
    }
    res
}

/// `String::push`.
#[verifier::external_body]
pub(crate) fn push_char(s: &mut String, c: char)
    ensures
        final(s)@ == old(s)@.push(c),
{
    s.push(c);
}

/// The string made of `chars`.
pub fn string_of(chars: &[char]) -> (res: String)
    ensures
        res@ == chars@,
{
    let mut res = String::new();
    for i in 0..chars.len()
        invariant
            res@ == chars@.take(i as int),
    {
        push_char(&mut res, chars[i]);
        assert(chars@.take(i + 1) == chars@.take(i as int).push(chars@[i as int]));
    }
    assert(chars@.take(chars@.len() as int) == chars@);
    res
}

/// Appends `more` to `s`.
pub fn push_chars(s: &mut String, more: &[char])
    ensures
        final(s)@ == old(s)@ + more@,
{
    let ghost start = s@;
    for i in 0..more.len()
        invariant
            s@ == start + more@.take(i as int),
    {
        push_char(s, more[i]);
        assert(more@.take(i + 1) == more@.take(i as int).push(more@[i as int]));
    }
    assert(more@.take(more@.len() as int) == more@);
}

/// The elements `from..to` of `s`.
pub(crate) fn copy_range<T: Copy>(s: &[T], from: usize, to: usize) -> (res: Vec<T>)
    requires
        from <= to <= s@.len(),
    ensures
        res@ == s@.subrange(from as int, to as int),
{
    let mut res: Vec<T> = Vec::new();
    let mut k = from;
    while k < to
        invariant
            from <= k <= to <= s@.len(),
            res@ == s@.subrange(from as int, k as int),
        decreases to - k,
    {
        res.push(s[k]);
        assert(s@.subrange(from as int, k + 1) == s@.subrange(from as int, k as int).push(s@[k as int]));
        k += 1;
    }
    res
}

/// Whether `a` and `b` hold the same characters.
pub fn chars_equal(a: &[char], b: &[char]) -> (res: bool)
    ensures
        res == (a@ == b@),
{
    if a.len() != b.len() {
        return false;
    }
    for i in 0..a.len()
        invariant
            a@.len() == b@.len(),
            forall|k: int| 0 <= k < i ==> a@[k] == b@[k],
    {
        if a[i] != b[i] {
            return false;
        }
    }
    assert(a@ =~= b@);
    true
}

/// Whether `s` begins with `p`.
pub fn chars_start_with(s: &[char], p: &[char]) -> (res: bool)
    ensures
        res == starts_with(s@, p@),
{
    if p.len() > s.len() {
        return false;
    }
    for i in 0..p.len()
        invariant
            p@.len() <= s@.len(),
            forall|k: int| 0 <= k < i ==> s@[k] == p@[k],
    {
        if s[i] != p[i] {
            return false;
        }
    }
    assert(s@.take(p@.len() as int) =~= p@);
    true
}

/// Whether `p` occurs in `s`.
pub fn chars_contain(s: &[char], p: &[char]) -> (res: bool)
    ensures
        res == contains_text(s@, p@),
{
    if p.len() > s.len() {
        return false;
    }
    if p.len() == 0 {
        let ghost z: int = 0;
        assert(s@.subrange(z, z + p@.len()) =~= p@);
        return true;
    }
    let last = s.len() - p.len();
    let mut i: usize = 0;
    while i <= last
        invariant
            0 < p@.len(),
            last + p.len() == s.len(),
            i <= last + 1,
            forall|k: int| 0 <= k < i ==> #[trigger] s@.subrange(k, k + p@.len()) != p@,
        decreases last + 1 - i,
    {
        let mut same = true;
        let mut j: usize = 0;
        while j < p.len()
            invariant
                i <= last,
                last + p.len() == s.len(),
                j <= p@.len(),
                same == (forall|k: int| 0 <= k < j ==> s@[i + k] == p@[k]),
            decreases p@.len() - j,
        {
            if s[i + j] != p[j] {
                same = false;
            }
            j += 1;
        }
        if same {
            assert(s@.subrange(i as int, i + p@.len()) =~= p@);
            return true;
        } else {
            assert(s@.subrange(i as int, i + p@.len()) != p@) by {
                let k = choose|k: int| 0 <= k < p@.len() && s@[i + k] != p@[k];
                assert(s@.subrange(i as int, i + p@.len())[k] == s@[i + k]);
            }
        }
        i += 1;
    }
    assert forall|k: int| 0 <= k && k + p@.len() <= s@.len() implies #[trigger] s@.subrange(k, k + p@.len()) != p@ by {
        assert(k <= last);
    }
    false
}

/// `s` without its leading and trailing characters of class `cls`.
pub fn trim_chars_by(s: &[char], cls: CharClass) -> (res: Vec<char>)
    ensures
        res@ == trim_by(s@, cls),
{
    let mut i: usize = 0;
    assert(s@.skip(0) =~= s@);
    while i < s.len() && cls.test(s[i])
        invariant
            i <= s@.len(),
            trim_start_by(s@, cls) == trim_start_by(s@.skip(i as int), cls),
        decreases s@.len() - i,
    {
        assert(s@.skip(i as int).drop_first() =~= s@.skip(i + 1));
        i += 1;
    }
    assert(trim_start_by(s@.skip(i as int), cls) == s@.skip(i as int));
    let mut j: usize = s.len();
    assert(s@.skip(i as int) =~= s@.subrange(i as int, j as int));
    while j > i && cls.test(s[j - 1])
        invariant
            i <= j <= s@.len(),
            trim_end_by(s@.skip(i as int), cls) == trim_end_by(s@.subrange(i as int, j as int), cls),
        decreases j - i,
    {
        assert(s@.subrange(i as int, j as int).drop_last() =~= s@.subrange(i as int, j - 1));
        j -= 1;
    }
    assert(trim_end_by(s@.subrange(i as int, j as int), cls) == s@.subrange(i as int, j as int));
    copy_range(s, i, j)
}

/// `str::trim`.
pub fn trim_chars(s: &[char]) -> (res: Vec<char>)
    ensures
        res@ == trim(s@),
{
    trim_chars_by(s, CharClass::WhiteSpace)
}

/// Whether `p` occurs in `s` at position `at`.
pub(crate) fn starts_with_at(s: &[char], at: usize, p: &[char]) -> (res: bool)
    requires
        at <= s@.len(),
    ensures
        res == starts_with(s@.skip(at as int), p@),
{
    if p.len() > s.len() - at {
        return false;
    }
    for k in 0..p.len()
        invariant
            at + p.len() <= s.len(),
            forall|m: int| 0 <= m < k ==> s@[at + m] == p@[m],
    {
        if s[at + k] != p[k] {
            assert(s@.skip(at as int).take(p@.len() as int)[k as int] != p@[k as int]);
            return false;
        }
    }
    assert(s@.skip(at as int).take(p@.len() as int) =~= p@);
    true
}

/// `str::trim_start_matches` with a string pattern.
pub fn trim_start_matches_chars(s: &[char], p: &[char]) -> (res: Vec<char>)
    ensures
        res@ == trim_start_matches(s@, p@),
{
    let mut i: usize = 0;
    assert(s@.skip(0) =~= s@);
    if p.len() == 0 {
        return copy_range(s, 0, s.len());
    }
    let n = s.len();
    while starts_with_at(s, i, p)
        invariant
            n == s@.len(),
            0 < p@.len(),
            i <= s@.len(),
            trim_start_matches(s@, p@) == trim_start_matches(s@.skip(i as int), p@),
        decreases s@.len() - i,
    {
        assert(s@.skip(i as int).skip(p@.len() as int) =~= s@.skip(i + p@.len()));
        assert(i + p@.len() <= n);
        i += p.len();
    }
    assert(s@.skip(i as int) =~= s@.subrange(i as int, s@.len() as int));
    copy_range(s, i, s.len())
}

/// `str::replace` with a non-empty pattern: scanning from the left, each
/// occurrence of `pat` that does not overlap an earlier one is replaced by `rep`.
pub open spec fn replace_all(s: Seq<char>, pat: Seq<char>, rep: Seq<char>) -> Seq<char>
    decreases s.len(),
{
    if s.len() == 0 {
        Seq::<char>::empty()
    } else if pat.len() > 0 && starts_with(s, pat) {
        rep + replace_all(s.skip(pat.len() as int), pat, rep)
    } else {
        seq![s[0]] + replace_all(s.drop_first(), pat, rep)
    }
}

/// `str::replace` with a non-empty pattern.
pub(crate) fn replace_text(s: &str, pat: &str, rep: &str) -> (res: String)
    requires
        pat@.len() > 0,
    ensures
        res@ == replace_all(s@, pat@, rep@),
{
    let chars = chars_of(s);
    let p = chars_of(pat);
    let mut res = String::new();
    let mut i: usize = 0;
    let n = chars.len();
    assert(chars@.skip(0) =~= chars@);
    while i < n
        invariant
            n == chars@.len(),
            chars@ == s@,
            p@ == pat@,
            p@.len() > 0,
            i <= n,
            replace_all(s@, pat@, rep@) == res@ + replace_all(chars@.skip(i as int), pat@, rep@),
        decreases n - i,
    {
        let ghost rest = chars@.skip(i as int);
        let ghost before = res@;
        if starts_with_at(chars.as_slice(), i, p.as_slice()) {
            res.append(rep);
            assert(rest.skip(p@.len() as int) =~= chars@.skip(i + p@.len()));
            assert(before + (rep@ + replace_all(rest.skip(p@.len() as int), pat@, rep@)) =~= res@
                + replace_all(chars@.skip(i + p@.len()), pat@, rep@));
            i += p.len();
        } else {
            push_char(&mut res, chars[i]);
            assert(rest.drop_first() =~= chars@.skip(i + 1));
            assert(before + (seq![rest[0]] + replace_all(rest.drop_first(), pat@, rep@)) =~= res@
                + replace_all(chars@.skip(i + 1), pat@, rep@));
            i += 1;
        }
    }
    assert(chars@.skip(n as int).len() == 0);
    assert(res@ + Seq::<char>::empty() =~= res@);
    res
}

/// `str::split` on one character.
pub fn split_chars(s: &[char], sep: char) -> (res: Vec<Vec<char>>)
    ensures
        views_are(res@, split_char(s@, sep)),
{
    let mut pieces: Vec<Vec<char>> = Vec::new();
    let mut cur: Vec<char> = Vec::new();
    let ghost mut done: Seq<Seq<char>> = Seq::empty();
    assert(s@.take(0) =~= Seq::<char>::empty());
    for i in 0..s.len()
        invariant
            views_are(pieces@, done),
            split_char(s@.take(i as int), sep) == done.push(cur@),
    {
        let c = s[i];
        assert(s@.take(i + 1).drop_last() =~= s@.take(i as int));
        if c == sep {
            pieces.push(cur);
            cur = Vec::new();
            proof {
                done = done.push(pieces@.last()@);
            }
        } else {
            cur.push(c);
            assert(done.push(cur@) =~= split_char(s@.take(i as int), sep).update(
                done.len() as int,
                split_char(s@.take(i as int), sep).last().push(c),
            ));
        }
    }
    assert(s@.take(s@.len() as int) =~= s@);
    pieces.push(cur);
    assert(views_are(pieces@, done.push(cur@)));
    pieces
}

/// `str::split_once` on one character.
pub fn split_once_chars(s: &[char], c: char) -> (res: Option<(Vec<char>, Vec<char>)>)
    ensures
        match split_once(s@, c) {
            Some((a, b)) => res matches Some((x, y)) && x@ == a && y@ == b,
            None => res is None,
        },
{
    for i in 0..s.len()
        invariant
            forall|k: int| 0 <= k < i ==> s@[k] != c,
    {
        if s[i] == c {
            assert(is_first_index(s@, c, i as int));
            assert(s@.contains(c));
            let ghost j = choose|j: int| is_first_index(s@, c, j);
            assert(j == i as int);
            return Some((copy_range(s, 0, i), copy_range(s, i + 1, s.len())));
        }
    }
    None
}

/// Whether `v` holds a string equal to `s`.
pub fn strings_contain(v: &Vec<String>, s: &str) -> (res: bool)
    ensures
        res == exists|i: int| 0 <= i < v@.len() && (#[trigger] v@[i])@ == s@,
{
    let target = chars_of(s);
    for i in 0..v.len()
        invariant
            target@ == s@,
            forall|k: int| 0 <= k < i ==> (#[trigger] v@[k])@ != s@,
    {
        let item = chars_of(v[i].as_str());
        if chars_equal(&item, &target) {
            return true;
        }
    }
    false
}

/// A decimal digit.
pub open spec fn is_digit(c: char) -> bool {
    '0' <= c && c <= '9'
}

/// Every character of `s` is a decimal digit.
pub open spec fn all_digits(s: Seq<char>) -> bool {
    forall|i: int| 0 <= i < s.len() ==> is_digit(#[trigger] s[i])
}

/// The number that the decimal digits `s` write.
pub open spec fn digits_value(s: Seq<char>) -> int
    decreases s.len(),
{
    if s.len() == 0 {
        0
    } else {
        digits_value(s.drop_last()) * 10 + (s.last() as int - '0' as int)
    }
}

/// `str::parse` for an unsigned integer type whose largest value is `max`: an
/// optional `+`, then one or more decimal digits, and a value that fits.
pub open spec fn parse_unsigned(s: Seq<char>, max: int) -> Option<int> {
    let d = if s.len() > 0 && s[0] == '+' {
        s.drop_first()
    } else {
        s
    };
    if d.len() > 0 && all_digits(d) && digits_value(d) <= max {
        Some(digits_value(d))
    } else {
        None
    }
}

/// `str::parse::<bool>`.
pub open spec fn parse_bool(s: Seq<char>) -> Option<bool> {
    if s == "true"@ {
        Some(true)
    } else if s == "false"@ {
        Some(false)
    } else {
        None
    }
}

/// The characters of `s` from `from` on are all digits; with the value they write,
/// or `max + 1` where that is larger.
fn digits_capped(s: &[char], from: usize, max: u64) -> (res: Option<u64>)
    requires
        from <= s@.len(),
        max < 0x1_0000_0000,
    ensures
        match res {
            Some(v) => all_digits(s@.skip(from as int)) && v == if digits_value(
                s@.skip(from as int),
            ) <= max {
                digits_value(s@.skip(from as int))
            } else {
                max + 1
            },
            None => !all_digits(s@.skip(from as int)),
        },
{
    let mut v: u64 = 0;
    let mut i = from;
    assert(s@.subrange(from as int, from as int) =~= Seq::<char>::empty());
    while i < s.len()
        invariant
            from <= i <= s@.len(),
            max < 0x1_0000_0000,
            all_digits(s@.subrange(from as int, i as int)),
            v == if digits_value(s@.subrange(from as int, i as int)) <= max {
                digits_value(s@.subrange(from as int, i as int))
            } else {
                max + 1
            },
        decreases s@.len() - i,
    {
        let c = s[i];
        if !('0' <= c && c <= '9') {
            assert(s@.skip(from as int)[i - from] == c);
            return None;
        }
        let d = (c as u32 - '0' as u32) as u64;
        let ghost prev = s@.subrange(from as int, i as int);
        let ghost next = s@.subrange(from as int, i + 1);
        assert(next.drop_last() =~= prev);
        assert(digits_value(next) == digits_value(prev) * 10 + d);
        let w = v * 10 + d;
        v = if w > max { max + 1 } else { w };
        i += 1;
    }
    assert(s@.subrange(from as int, s@.len() as int) =~= s@.skip(from as int));
    Some(v)
}

/// `str::parse` for an unsigned integer type whose largest value is `max`.
pub(crate) fn parse_unsigned_chars(s: &[char], max: u64) -> (res: Option<u64>)
    requires
        max < 0x1_0000_0000,
    ensures
        match parse_unsigned(s@, max as int) {
            Some(v) => res matches Some(r) && r as int == v,
            None => res is None,
        },
        res matches Some(v) ==> v <= max,
{
    let from: usize = if s.len() > 0 && s[0] == '+' { 1 } else { 0 };
    assert(from == 1 ==> s@.skip(1) =~= s@.drop_first());
    assert(s@.skip(0) =~= s@);
    if from == s.len() {
        return None;
    }
    match digits_capped(s, from, max) {
        Some(v) => {
            if v <= max {
                Some(v)
            } else {
                None
            }
        },
        None => None,
    }
}

/// `str::parse::<u32>`.
pub fn parse_u32_chars(s: &[char]) -> (res: Option<u32>)
    ensures
        match parse_unsigned(s@, u32::MAX as int) {
            Some(v) => res matches Some(r) && r as int == v,
            None => res is None,
        },
{
    match parse_unsigned_chars(s, 0xffff_ffff) {
        Some(v) => {
            Some(v as u32)
        },
        None => None,
    }
}

/// `str::parse::<u8>`.
pub fn parse_u8_chars(s: &[char]) -> (res: Option<u8>)
    ensures
        match parse_unsigned(s@, u8::MAX as int) {
            Some(v) => res matches Some(r) && r as int == v,
            None => res is None,
        },
{
    match parse_unsigned_chars(s, 0xff) {
        Some(v) => {
            Some(v as u8)
        },
        None => None,
    }
}

/// `str::parse::<bool>`.
pub fn parse_bool_chars(s: &[char]) -> (res: Option<bool>)
    ensures
        res == parse_bool(s@),
{
    let t = chars_of("true");
    let f = chars_of("false");
    if chars_equal(s, &t) {
        Some(true)
    } else if chars_equal(s, &f) {
        Some(false)
    } else {
        None
    }
}

/// A line without the carriage return that ended it.
pub open spec fn strip_cr(line: Seq<char>) -> Seq<char> {
    if line.len() > 0 && line.last() == '\r' {
        line.drop_last()
    } else {
        line
    }
}

/// `str::lines`: the pieces between `\n`, each without a `\r` before its `\n`,
/// and no empty piece after a final `\n`.
pub open spec fn lines(s: Seq<char>) -> Seq<Seq<char>> {
    let parts = split_char(s, '\n');
    let body = parts.drop_last().map_values(|l: Seq<char>| strip_cr(l));
    if parts.last().len() == 0 {
        body
    } else {
        body.push(parts.last())
    }
}

/// Splitting yields at least one piece.
pub proof fn lemma_split_nonempty(s: Seq<char>, sep: char)
    ensures
        split_char(s, sep).len() >= 1,
    decreases s.len(),
{
    if s.len() > 0 {
        lemma_split_nonempty(s.drop_last(), sep);
    }
}

/// `str::lines`.
pub fn lines_of(s: &[char]) -> (res: Vec<Vec<char>>)
    ensures
        views_are(res@, lines(s@)),
{
    let parts = split_chars(s, '\n');
    proof {
        lemma_split_nonempty(s@, '\n');
    }
    let ghost spec_parts = split_char(s@, '\n');
    let n = parts.len();
    let mut res: Vec<Vec<char>> = Vec::new();
    for i in 0..n - 1
        invariant
            n == parts@.len(),
            n >= 1,
            views_are(parts@, spec_parts),
            views_are(res@, spec_parts.take(i as int).map_values(|l: Seq<char>| strip_cr(l))),
    {
        let line = parts[i].as_slice();
        let k = line.len();
        let stripped = if k > 0 && line[k - 1] == '\r' {
            copy_range(line, 0, k - 1)
        } else {
            copy_range(line, 0, k)
        };
        proof {
            assert(line@.subrange(0, k as int) =~= line@);
            assert(k > 0 ==> line@.subrange(0, k - 1) =~= line@.drop_last());
        }
        res.push(stripped);
        assert(spec_parts.take(i + 1).map_values(|l: Seq<char>| strip_cr(l)) =~= spec_parts.take(
            i as int,
        ).map_values(|l: Seq<char>| strip_cr(l)).push(strip_cr(spec_parts[i as int])));
    }
    assert(spec_parts.take(n - 1) =~= spec_parts.drop_last());
    let last = parts[n - 1].as_slice();
    if last.len() > 0 {
        res.push(copy_range(last, 0, last.len()));
        assert(last@.subrange(0, last@.len() as int) =~= last@);
    }
    res
}

/// The pieces `parts[from..]` with `sep` between them.
pub(crate) fn join_from(parts: &Vec<Vec<char>>, from: usize, sep: &[char]) -> (res: Vec<char>)
    requires
        from <= parts@.len(),
    ensures
        res@ == join(parts@.skip(from as int).map_values(|p: Vec<char>| p@), sep@),
{
    let ghost all = parts@.map_values(|p: Vec<char>| p@);
    let mut res: Vec<char> = Vec::new();
    let mut i = from;
    assert(all.subrange(from as int, from as int) =~= Seq::<Seq<char>>::empty());
    while i < parts.len()
        invariant
            from <= i <= parts@.len(),
            all == parts@.map_values(|p: Vec<char>| p@),
            res@ == join(all.subrange(from as int, i as int), sep@),
        decreases parts@.len() - i,
    {
        let piece = parts[i].as_slice();
        let ghost before = res@;
        if i > from {
            let mut k: usize = 0;
            while k < sep.len()
                invariant
                    k <= sep@.len(),
                    res@ == before + sep@.take(k as int),
                decreases sep@.len() - k,
            {
                res.push(sep[k]);
                assert(sep@.take(k + 1) =~= sep@.take(k as int).push(sep@[k as int]));
                k += 1;
            }
            assert(sep@.take(sep@.len() as int) =~= sep@);
        }
        let ghost middle = res@;
        let mut k: usize = 0;
        while k < piece.len()
            invariant
                k <= piece@.len(),
                res@ == middle + piece@.take(k as int),
            decreases piece@.len() - k,
        {
            res.push(piece[k]);
            assert(piece@.take(k + 1) =~= piece@.take(k as int).push(piece@[k as int]));
            k += 1;
        }
        assert(piece@.take(piece@.len() as int) =~= piece@);
        let ghost grown = all.subrange(from as int, i + 1);
        assert(grown.drop_last() =~= all.subrange(from as int, i as int));
        assert(grown.last() == piece@);
        if i == from {
            assert(grown.len() == 1);
            assert(res@ =~= piece@);
        }
        i += 1;
    }
    assert(all.subrange(from as int, parts@.len() as int) =~= parts@.skip(from as int).map_values(
        |p: Vec<char>| p@,
    ));
    res
}

/// Whether `s` is the text `lit`.
pub fn is_text(s: &[char], lit: &str) -> (res: bool)
    ensures
        res == (s@ == lit@),
{
    let l = chars_of(lit);
    chars_equal(s, l.as_slice())
}

/// Each piece trimmed.
pub open spec fn trim_each(parts: Seq<Seq<char>>) -> Seq<Seq<char>> {
    parts.map_values(|p: Seq<char>| trim(p))
}

/// The pieces of `s` between `sep`, each trimmed, as strings.
pub fn split_trimmed(s: &[char], sep: char) -> (res: Vec<String>)
    ensures
        string_views_are(res@, trim_each(split_char(s@, sep))),
{
    let parts = split_chars(s, sep);
    let ghost sp = split_char(s@, sep);
    let mut res: Vec<String> = Vec::new();
    for i in 0..parts.len()
        invariant
            views_are(parts@, sp),
            string_views_are(res@, trim_each(sp).take(i as int)),
    {
        let t = trim_chars(parts[i].as_slice());
        res.push(string_of(t.as_slice()));
    }
    assert(trim_each(sp).take(parts@.len() as int) =~= trim_each(sp));
    res
}

/// Lines each followed by `\n`.
pub open spec fn concat_lines(ls: Seq<Seq<char>>) -> Seq<char>
    decreases ls.len(),
{
    if ls.len() == 0 {
        Seq::<char>::empty()
    } else {
        concat_lines(ls.drop_last()) + ls.last() + seq!['\n']
    }
}

/// Leading characters of class `cls` before `s` go away with `s`'s own.
pub proof fn lemma_trim_start_prefix(x: Seq<char>, s: Seq<char>, cls: CharClass)
    requires
        forall|i: int| 0 <= i < x.len() ==> cls.holds(#[trigger] x[i]),
    ensures
        trim_start_by(x + s, cls) == trim_start_by(s, cls),
    decreases x.len(),
{
    if x.len() > 0 {
        assert((x + s)[0] == x[0]);
        assert((x + s).drop_first() =~= x.drop_first() + s);
        lemma_trim_start_prefix(x.drop_first(), s, cls);
    } else {
        assert(x + s =~= s);
    }
}

/// Trailing characters of class `cls` after `s` go away with `s`'s own.
pub proof fn lemma_trim_end_suffix(s: Seq<char>, x: Seq<char>, cls: CharClass)
    requires
        forall|i: int| 0 <= i < x.len() ==> cls.holds(#[trigger] x[i]),
    ensures
        trim_end_by(s + x, cls) == trim_end_by(s, cls),
    decreases x.len(),
{
    if x.len() > 0 {
        assert((s + x).last() == x.last());
        assert((s + x).drop_last() =~= s + x.drop_last());
        lemma_trim_end_suffix(s, x.drop_last(), cls);
    } else {
        assert(s + x =~= s);
    }
}

/// Appending text without the separator extends the last piece.
pub proof fn lemma_split_append(a: Seq<char>, b: Seq<char>, sep: char)
    requires
        !b.contains(sep),
    ensures
        split_char(a + b, sep) == split_char(a, sep).update(
            split_char(a, sep).len() - 1,
            split_char(a, sep).last() + b,
        ),
        split_char(a + b, sep).len() == split_char(a, sep).len(),
    decreases b.len(),
{
    lemma_split_nonempty(a, sep);
    if b.len() == 0 {
        assert(a + b =~= a);
        assert(split_char(a, sep).last() + b =~= split_char(a, sep).last());
        assert(split_char(a, sep).update(split_char(a, sep).len() - 1, split_char(a, sep).last())
            =~= split_char(a, sep));
    } else {
        let b0 = b.drop_last();
        assert(!b0.contains(sep)) by {
            if b0.contains(sep) {
                let i = choose|i: int| 0 <= i < b0.len() && b0[i] == sep;
                assert(b[i] == sep);
            }
        }
        assert(b.last() != sep) by {
            assert(b[b.len() - 1] == b.last());
        }
        lemma_split_append(a, b0, sep);
        assert((a + b).drop_last() =~= a + b0);
        assert((a + b).last() == b.last());
        let p = split_char(a, sep);
        let prev = split_char(a + b0, sep);
        assert(prev.last() == p.last() + b0);
        assert(split_char(a + b, sep) == prev.update(prev.len() - 1, prev.last().push(b.last())));
        assert((p.last() + b0).push(b.last()) =~= p.last() + b);
        assert(split_char(a + b, sep) =~= p.update(p.len() - 1, p.last() + b));
    }
}

/// The pieces of lines joined with `\n` are the lines and an empty last piece.
pub proof fn lemma_split_concat_lines(ls: Seq<Seq<char>>)
    requires
        forall|i: int| 0 <= i < ls.len() ==> !(#[trigger] ls[i]).contains('\n'),
    ensures
        split_char(concat_lines(ls), '\n') == ls.push(Seq::<char>::empty()),
    decreases ls.len(),
{
    if ls.len() == 0 {
        assert(split_char(Seq::<char>::empty(), '\n') =~= seq![Seq::<char>::empty()]);
        assert(ls.push(Seq::<char>::empty()) =~= seq![Seq::<char>::empty()]);
    } else {
        let rest = ls.drop_last();
        let l = ls.last();
        assert forall|i: int| 0 <= i < rest.len() implies !(#[trigger] rest[i]).contains('\n') by {
            assert(rest[i] == ls[i]);
        }
        lemma_split_concat_lines(rest);
        let c = concat_lines(rest);
        assert(!l.contains('\n')) by {
            assert(ls[ls.len() - 1] == l);
        }
        lemma_split_append(c, l, '\n');
        let with_line = c + l;
        assert((with_line + seq!['\n']).drop_last() =~= with_line);
        assert((with_line + seq!['\n']).last() == '\n');
        assert(split_char(with_line, '\n') =~= rest.push(l));
        assert(rest.push(l) =~= ls);
    }
}

/// Lines joined with `\n` are read back as the same lines, where none holds `\n`
/// or ends with `\r`.
pub proof fn lemma_lines_concat_lines(ls: Seq<Seq<char>>)
    requires
        forall|i: int| 0 <= i < ls.len() ==> !(#[trigger] ls[i]).contains('\n'),
        forall|i: int| 0 <= i < ls.len() ==> strip_cr(#[trigger] ls[i]) == ls[i],
    ensures
        lines(concat_lines(ls)) == ls,
{
    lemma_split_concat_lines(ls);
    let parts = split_char(concat_lines(ls), '\n');
    assert(parts.drop_last() =~= ls);
    assert(parts.last() =~= Seq::<char>::empty());
    assert(ls.map_values(|l: Seq<char>| strip_cr(l)) =~= ls);
}

/// One more line keeps lines joined with `\n` readable as those lines.
pub proof fn lemma_lines_push(ls: Seq<Seq<char>>, l: Seq<char>)
    requires
        split_char(concat_lines(ls), '\n') == ls.push(Seq::<char>::empty()),
        lines(concat_lines(ls)) == ls,
        !l.contains('\n'),
        strip_cr(l) == l,
    ensures
        split_char(concat_lines(ls.push(l)), '\n') == ls.push(l).push(Seq::<char>::empty()),
        lines(concat_lines(ls.push(l))) == ls.push(l),
{
    let c = concat_lines(ls);
    assert(ls.push(l).drop_last() =~= ls);
    assert(concat_lines(ls.push(l)) == c + l + seq!['\n']);
    lemma_split_append(c, l, '\n');
    let with_line = c + l;
    assert((with_line + seq!['\n']).drop_last() =~= with_line);
    assert((with_line + seq!['\n']).last() == '\n');
    assert(split_char(with_line, '\n') =~= ls.push(l));
    let parts = split_char(concat_lines(ls.push(l)), '\n');
    assert(parts.drop_last() =~= ls.push(l));
    assert(split_char(c, '\n').drop_last() =~= ls);
    assert(ls.map_values(|x: Seq<char>| strip_cr(x)) == ls);
    assert(ls.push(l).map_values(|x: Seq<char>| strip_cr(x)) =~= ls.map_values(
        |x: Seq<char>| strip_cr(x),
    ).push(strip_cr(l)));
}

} // verus!
