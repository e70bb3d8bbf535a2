//! Text as sequences of characters: the string operations the deck needs,
//! each with an exact meaning over `Seq<char>`.
use vstd::prelude::*;

verus! {

/// `String::push`: appends one character at the end.
pub assume_specification[ String::push ](s: &mut String, ch: char)
    ensures
        final(s)@ == old(s)@.push(ch),
;

/// `str::eq`: two string slices are equal when they hold the same characters.
pub assume_specification[ <str as PartialEq>::eq ](s: &str, other: &str) -> (res: bool)
    ensures
        res == (s@ == other@),
;

/// The characters inside an optional text.
pub open spec fn opt(o: Option<String>) -> Option<Seq<char>> {
    match o {
        Some(s) => Some(s@),
        None => None,
    }
}

/// An optional text, if it is not empty.
pub open spec fn filled(o: Option<Seq<char>>) -> Option<Seq<char>> {
    match o {
        Some(s) => if s.len() == 0 {
            None
        } else {
            Some(s)
        },
        None => None,
    }
}

/// A copy of an optional text, if it is not empty.
pub fn clone_filled(o: &Option<String>) -> (r: Option<String>)
    ensures
        opt(r) == filled(opt(*o)),
{
    match o {
        Some(s) => if s.as_str().is_empty() {
            None
        } else {
            Some(s.clone())
        },
        None => None,
    }
}

/// Whether an optional text is there and equals `b`.
pub fn opt_is(o: &Option<String>, b: &str) -> (r: bool)
    ensures
        r == (opt(*o) == Some(b@)),
{
    match o {
        Some(s) => same(s.as_str(), b),
        None => false,
    }
}

/// Whether two texts hold the same characters.
pub fn same(a: &str, b: &str) -> (r: bool)
    ensures
        r == (a@ == b@),
{
    *a == *b
}

/// A copy of an optional text.
pub fn clone_opt(o: &Option<String>) -> (r: Option<String>)
    ensures
        r == *o,
{
    match o {
        Some(s) => Some(s.clone()),
        None => None,
    }
}

/// The characters of a text, in order.
pub fn chars_of(s: &str) -> (v: Vec<char>)
    ensures
        v@ == s@,
{
    let mut v: Vec<char> = Vec::new();
    for c in it: s.chars()
        invariant
            it.seq() == s@,
            v@ == s@.take(it.index() as int),
    {
        v.push(c);
        assert(s@.take(it.index() as int + 1) == s@.take(it.index() as int).push(c));
    }
    assert(s@.take(s@.len() as int) == s@);
    v
}

/// The text made of the characters `v[from..to]`.
pub fn text_of(v: &Vec<char>, from: usize, to: usize) -> (s: String)
    requires
        from <= to <= v@.len(),
    ensures
        s@ == v@.subrange(from as int, to as int),
{
    let mut s = String::new();
    let mut i: usize = from;
    while i < to
        invariant
            from <= i <= to <= v@.len(),
            s@ == v@.subrange(from as int, i as int),
        decreases to - i,
    {
        s.push(v[i]);
        i = i + 1;
        assert(v@.subrange(from as int, i as int) == v@.subrange(from as int, i - 1).push(
            v@[i - 1],
        ));
    }
    s
}

/// Unicode white space (the `White_Space` property).
pub open spec fn is_space(c: char) -> bool {
    let u = c as u32;
    ||| 0x09 <= u <= 0x0d
    ||| u == 0x20
    ||| u == 0x85
    ||| u == 0xa0
    ||| u == 0x1680
    ||| 0x2000 <= u <= 0x200a
    ||| u == 0x2028
    ||| u == 0x2029
    ||| u == 0x202f
    ||| u == 0x205f
    ||| u == 0x3000
}

/// Whether `c` is Unicode white space.
pub fn is_white_space(c: char) -> (r: bool)
    ensures
        r == is_space(c),
{
    let u: u32 = c as u32;
    (0x09 <= u && u <= 0x0d) || u == 0x20 || u == 0x85 || u == 0xa0 || u == 0x1680 || (0x2000 <= u
        && u <= 0x200a) || u == 0x2028 || u == 0x2029 || u == 0x202f || u == 0x205f || u == 0x3000
}

/// `s` without leading white space.
pub open spec fn trimmed_start(s: Seq<char>) -> Seq<char>
    decreases s.len(),
{
    if s.len() > 0 && is_space(s[0]) {
        trimmed_start(s.skip(1))
    } else {
        s
    }
}

/// `s` without trailing white space.
pub open spec fn trimmed_end(s: Seq<char>) -> Seq<char>
    decreases s.len(),
{
    if s.len() > 0 && is_space(s.last()) {
        trimmed_end(s.drop_last())
    } else {
        s
    }
}

/// `s` without leading and trailing white space.
pub open spec fn trimmed(s: Seq<char>) -> Seq<char> {
    trimmed_end(trimmed_start(s))
}

/// `s` without leading and trailing white space.
pub fn trim(s: &str) -> (r: String)
    ensures
        r@ == trimmed(s@),
{
    let v = chars_of(s);
    let mut a: usize = 0;
    assert(v@.skip(0) == v@);
    while a < v.len() && is_white_space(v[a])
        invariant
            a <= v@.len(),
            v@ == s@,
            trimmed_start(s@) == trimmed_start(v@.skip(a as int)),
        decreases v@.len() - a,
    {
        assert(v@.skip(a as int).skip(1) == v@.skip(a + 1));
        a = a + 1;
    }
    let mut b: usize = v.len();
    let ghost start = v@.skip(a as int);
    assert(start == trimmed_start(s@));
    assert(v@.subrange(a as int, b as int) == start);
    while a < b && is_white_space(v[b - 1])
        invariant
            a <= b <= v@.len(),
            trimmed_end(start) == trimmed_end(v@.subrange(a as int, b as int)),
        decreases b,
    {
        assert(v@.subrange(a as int, b as int).drop_last() == v@.subrange(a as int, b - 1));
        b = b - 1;
    }
    text_of(&v, a, b)
}

/// The lower-case form of an ASCII letter; any other character unchanged.
pub open spec fn lower(c: char) -> char {
    if 'A' <= c && c <= 'Z' {
        (c as u32 + 32) as char
    } else {
        c
    }
}

/// The lower-case form of an ASCII letter; any other character unchanged.
pub fn ascii_lower(c: char) -> (r: char)
    ensures
        r == lower(c),
{
    if 'A' <= c && c <= 'Z' {
        ((c as u8) + 32) as char
    } else {
        c
    }
}

/// `s` with its ASCII letters in lower case.
pub open spec fn lowered(s: Seq<char>) -> Seq<char> {
    Seq::new(s.len(), |i: int| lower(s[i]))
}

/// `s` with its ASCII letters in lower case.
pub fn to_ascii_lowercase(s: &str) -> (r: String)
    ensures
        r@ == lowered(s@),
{
    let mut r = String::new();
    for c in it: s.chars()
        invariant
            it.seq() == s@,
            r@ == lowered(s@.take(it.index() as int)),
    {
        r.push(ascii_lower(c));
        assert(lowered(s@.take(it.index() as int + 1)) == lowered(
            s@.take(it.index() as int),
        ).push(lower(c)));
    }
    assert(s@.take(s@.len() as int) == s@);
    r
}

/// Whether two texts are the same when the case of ASCII letters is ignored.
pub fn eq_ignore_ascii_case(a: &str, b: &str) -> (r: bool)
    ensures
        r == (lowered(a@) == lowered(b@)),
{
    same(to_ascii_lowercase(a).as_str(), to_ascii_lowercase(b).as_str())
}

/// The lower-case form that `str::to_lowercase` gives, by the Unicode tables.
pub uninterp spec fn unicode_lower(s: Seq<char>) -> Seq<char>;

/// Every character is ASCII.
pub open spec fn all_ascii(s: Seq<char>) -> bool {
    forall|i: int| 0 <= i < s.len() ==> (#[trigger] s[i]) as u32 <= 0x7f
}

/// `str::to_lowercase`: the lower-case form by the Unicode tables. On ASCII text
/// these only change the letters A to Z.
#[verifier::external_body]
pub(crate) fn to_lowercase(s: &str) -> (r: String)
    ensures
        r@ == unicode_lower(s@),
        all_ascii(s@) ==> r@ == lowered(s@),
{
    s.to_lowercase()
}

/// `part` stands in `s` at position `i`.
pub open spec fn occurs_at(s: Seq<char>, part: Seq<char>, i: int) -> bool {
    0 <= i && i + part.len() <= s.len() && s.subrange(i, i + part.len()) == part
}

/// `part` stands somewhere in `s`.
pub open spec fn occurs(s: Seq<char>, part: Seq<char>) -> bool {
    exists|i: int| occurs_at(s, part, i)
}

/// Whether `part` stands in `s` at position `i`.
pub fn matches_at(s: &Vec<char>, part: &Vec<char>, i: usize) -> (r: bool)
    ensures
        r == occurs_at(s@, part@, i as int),
{
    if i > s.len() || part.len() > s.len() - i {
        return false;
    }
    let mut k: usize = 0;
    while k < part.len()
        invariant
            k <= part@.len(),
            i + part@.len() <= s.len(),
            forall|j: int| 0 <= j < k ==> s@[i + j] == part@[j],
        decreases part@.len() - k,
    {
        if s[i + k] != part[k] {
            assert(s@.subrange(i as int, i + part@.len())[k as int] == s@[i + k]);
            return false;
        }
        k = k + 1;
    }
    assert(s@.subrange(i as int, i + part@.len()) == part@);
    true
}

/// Whether `part` stands somewhere in `s`.
pub fn contains(s: &str, part: &str) -> (r: bool)
    ensures
        r == occurs(s@, part@),
{
    let sv = chars_of(s);
    let pv = chars_of(part);
    let mut i: usize = 0;
    while i < sv.len()
        invariant
            i <= sv@.len(),
            sv@ == s@,
            pv@ == part@,
            forall|j: int| 0 <= j < i ==> !occurs_at(s@, part@, j),
        decreases sv@.len() - i,
    {
        if matches_at(&sv, &pv, i) {
            return true;
        }
        i = i + 1;
    }
    let at_end: bool = matches_at(&sv, &pv, i);
    assert(occurs(s@, part@) ==> at_end) by {
        if occurs(s@, part@) {
            let j = choose|j: int| occurs_at(s@, part@, j);
            assert(j >= i);
            assert(j == i);
        }
    }
    at_end
}

/// `s` begins with `part`.
pub open spec fn begins(s: Seq<char>, part: Seq<char>) -> bool {
    occurs_at(s, part, 0)
}

/// `s` ends with `part`.
pub open spec fn ends(s: Seq<char>, part: Seq<char>) -> bool {
    occurs_at(s, part, s.len() - part.len())
}

/// Whether `s` begins with `part`.
pub fn starts_with(s: &str, part: &str) -> (r: bool)
    ensures
        r == begins(s@, part@),
{
    matches_at(&chars_of(s), &chars_of(part), 0)
}

/// Whether `s` ends with `part`.
pub fn ends_with(s: &str, part: &str) -> (r: bool)
    ensures
        r == ends(s@, part@),
{
    let sv = chars_of(s);
    let pv = chars_of(part);
    if pv.len() > sv.len() {
        return false;
    }
    matches_at(&sv, &pv, sv.len() - pv.len())
}

/// The character of a decimal digit.
pub open spec fn digit(d: int) -> char {
    (d + 48) as char
}

/// `n` in decimal, without leading zeros.
pub open spec fn decimal(n: nat) -> Seq<char>
    decreases n,
{
    if n < 10 {
        seq![digit(n as int)]
    } else {
        decimal(n / 10).push(digit((n % 10) as int))
    }
}

/// `n` in decimal, without leading zeros.
pub fn to_decimal(n: u64) -> (s: String)
    ensures
        s@ == decimal(n as nat),
    decreases n,
{
    let d: u8 = (n % 10) as u8;
    let mut s = if n < 10 {
        String::new()
    } else {
        to_decimal(n / 10)
    };
    s.push((d + 48) as char);
    s
}

/// The contents of a list of texts.
pub open spec fn texts(v: Seq<String>) -> Seq<Seq<char>> {
    v.map_values(|x: String| x@)
}

/// Whether `id` is among `ids`.
pub fn lists_id(ids: &[String], id: &str) -> (r: bool)
    ensures
        r == texts(ids@).contains(id@),
{
    let mut i: usize = 0;
    while i < ids.len()
        invariant
            i <= ids@.len(),
            forall|j: int| 0 <= j < i ==> #[trigger] texts(ids@)[j] != id@,
        decreases ids@.len() - i,
    {
        assert(texts(ids@)[i as int] == ids@[i as int]@);
        if same(ids[i].as_str(), id) {
            return true;
        }
        i = i + 1;
    }
    false
}

/// The same texts again.
pub fn clone_texts(v: &Vec<String>) -> (r: Vec<String>)
    ensures
        texts(r@) == texts(v@),
{
    let mut r: Vec<String> = Vec::new();
    let mut i: usize = 0;
    while i < v.len()
        invariant
            i <= v@.len(),
            r@.len() == i,
            forall|j: int| 0 <= j < i ==> (#[trigger] r@[j])@ == v@[j]@,
        decreases v@.len() - i,
    {
        r.push(v[i].clone());
        i = i + 1;
    }
    assert(texts(r@) =~= texts(v@));
    r
}

/// The value of a row of decimal digits; None when it is empty or holds anything else.
pub open spec fn digits_value(s: Seq<char>) -> Option<nat>
    decreases s.len(),
{
    if s.len() == 0 {
        None
    } else {
        let c = s.last();
        if !('0' <= c && c <= '9') {
            None
        } else if s.len() == 1 {
            Some((c as u32 - 48) as nat)
        } else {
            match digits_value(s.drop_last()) {
                Some(v) => Some(10 * v + (c as u32 - 48) as nat),
                None => None,
            }
        }
    }
}

/// The number that a text stands for: decimal digits, with a plus sign at most.
pub open spec fn number(s: Seq<char>) -> Option<nat> {
    if s.len() > 0 && s[0] == '+' {
        digits_value(s.skip(1))
    } else {
        digits_value(s)
    }
}

proof fn lemma_digits_prefix(s: Seq<char>, n: int)
    requires
        0 < n <= s.len(),
        digits_value(s) is Some,
    ensures
        digits_value(s.take(n)) is Some,
        digits_value(s.take(n))->0 <= digits_value(s)->0,
    decreases s.len(),
{
    if n < s.len() {
        assert(s.drop_last().take(n) == s.take(n));
        lemma_digits_prefix(s.drop_last(), n);
    } else {
        assert(s.take(n) == s);
    }
}

proof fn lemma_digits_all(s: Seq<char>, n: int)
    requires
        0 <= n < s.len(),
        !('0' <= s[n] && s[n] <= '9'),
    ensures
        digits_value(s) is None,
    decreases s.len(),
{
    if n < s.len() - 1 {
        lemma_digits_all(s.drop_last(), n);
    }
}

/// The number that a text stands for, if it is one and fits.
pub fn parse_usize(text: &str) -> (r: Option<usize>)
    ensures
        match r {
            Some(n) => number(text@) == Some(n as nat),
            None => number(text@) is None || number(text@)->0 > usize::MAX,
        },
{
    let v = chars_of(text);
    let from: usize = if v.len() > 0 && v[0] == '+' {
        1
    } else {
        0
    };
    let ghost d = v@.skip(from as int);
    assert(number(text@) == digits_value(d)) by {
        assert(v@.skip(0) == v@);
    }
    if v.len() == from {
        return None;
    }
    let mut n: usize = 0;
    let mut i: usize = from;
    while i < v.len()
        invariant
            from <= i <= v@.len(),
            from < v@.len(),
            d == v@.skip(from as int),
            number(text@) == digits_value(d),
            i == from ==> n == 0,
            i > from ==> digits_value(d.take(i - from)) == Some(n as nat),
        decreases v@.len() - i,
    {
        let c: char = v[i];
        assert(d[i - from] == c);
        if !('0' <= c && c <= '9') {
            proof {
                lemma_digits_all(d, i - from);
            }
            return None;
        }
        let x: usize = (c as u32 - 48) as usize;
        let ghost t = d.take(i - from + 1);
        assert(t.drop_last() == d.take(i - from));
        assert(t.last() == c);
        assert(digits_value(t) == Some((10 * n + x) as nat));
        let next: Option<usize> = match n.checked_mul(10) {
            Some(m) => m.checked_add(x),
            None => None,
        };
        match next {
            Some(m) => {
                n = m;
            },
            None => {
                proof {
                    if digits_value(d) is Some {
                        lemma_digits_prefix(d, i - from + 1);
                    }
                }
                return None;
            },
        }
        i = i + 1;
    }
    assert(d.take(i - from) == d);
    Some(n)
}

/// A number is read back from its decimal form.
pub proof fn lemma_decimal_is_read_back(n: nat)
    ensures
        digits_value(decimal(n)) == Some(n),
        number(decimal(n)) == Some(n),
        decimal(n).len() > 0,
        decimal(n)[0] != '+',
    decreases n,
{
    if n >= 10 {
        lemma_decimal_is_read_back(n / 10);
        let s = decimal(n);
        assert(s.drop_last() == decimal(n / 10));
        assert(s[0] == decimal(n / 10)[0]);
        assert(s.len() > 1);
        assert(n == 10 * (n / 10) + n % 10);
    }
}

/// White space around a text is what trimming takes away: it leaves the text
/// itself, if that neither begins nor ends with white space.
pub proof fn lemma_trimmed_of_padded(before: Seq<char>, s: Seq<char>, after: Seq<char>)
    requires
        forall|i: int| 0 <= i < before.len() ==> is_space(#[trigger] before[i]),
        forall|i: int| 0 <= i < after.len() ==> is_space(#[trigger] after[i]),
        s.len() > 0,
        !is_space(s[0]),
        !is_space(s.last()),
    ensures
        trimmed(before + s + after) == s,
{
    lemma_trimmed_start_of_padded(before, s + after);
    assert(before + s + after == before + (s + after));
    assert((s + after)[0] == s[0]);
    lemma_trimmed_end_of_padded(s, after);
}

proof fn lemma_trimmed_start_of_padded(before: Seq<char>, rest: Seq<char>)
    requires
        forall|i: int| 0 <= i < before.len() ==> is_space(#[trigger] before[i]),
        rest.len() > 0,
        !is_space(rest[0]),
    ensures
        trimmed_start(before + rest) == rest,
    decreases before.len(),
{
    let all = before + rest;
    if before.len() == 0 {
        assert(all == rest);
    } else {
        assert(all[0] == before[0]);
        assert(all.skip(1) == before.skip(1) + rest);
        lemma_trimmed_start_of_padded(before.skip(1), rest);
    }
}

proof fn lemma_trimmed_end_of_padded(s: Seq<char>, after: Seq<char>)
    requires
        forall|i: int| 0 <= i < after.len() ==> is_space(#[trigger] after[i]),
        s.len() > 0,
        !is_space(s.last()),
    ensures
        trimmed_end(s + after) == s,
    decreases after.len(),
{
    let all = s + after;
    if after.len() == 0 {
        assert(all == s);
    } else {
        assert(all.last() == after.last());
        assert(all.drop_last() == s + after.drop_last());
        lemma_trimmed_end_of_padded(s, after.drop_last());
    }
}

/// A text with text before or after it is found in the whole, at the start of it
/// if nothing precedes it and at the end of it if nothing follows it.
pub proof fn lemma_part_is_found(before: Seq<char>, part: Seq<char>, after: Seq<char>)
    ensures
        occurs(before + part + after, part),
        begins(part + after, part),
        ends(before + part, part),
{
    let s = before + part + after;
    assert(s.subrange(before.len() as int, (before.len() + part.len()) as int) =~= part);
    assert(occurs_at(s, part, before.len() as int));
    assert((part + after).subrange(0, part.len() as int) =~= part);
    assert((before + part).subrange(before.len() as int, (before.len() + part.len()) as int) =~= part);
}

/// What is found in a text stands in it: the text is what precedes the part, the
/// part and what follows it.
pub proof fn lemma_found_part_stands_there(s: Seq<char>, part: Seq<char>) -> (r: (
    Seq<char>,
    Seq<char>,
))
    requires
        occurs(s, part),
    ensures
        s == r.0 + part + r.1,
        begins(s, part) ==> s == part + s.skip(part.len() as int),
        ends(s, part) ==> s == s.take(s.len() - part.len()) + part,
{
    let i = choose|i: int| occurs_at(s, part, i);
    let (a, b) = (s.take(i), s.skip(i + part.len()));
    assert(s =~= a + s.subrange(i, i + part.len()) + b);
    if begins(s, part) {
        assert(s =~= s.subrange(0, part.len() as int) + s.skip(part.len() as int));
    }
    if ends(s, part) {
        let n = s.len() - part.len();
        assert(s =~= s.take(n) + s.subrange(n, n + part.len()));
    }
    (a, b)
}

/// A text that begins or ends with another one holds it.
pub proof fn lemma_ends_are_parts(s: Seq<char>, part: Seq<char>)
    ensures
        begins(s, part) ==> occurs(s, part),
        ends(s, part) ==> occurs(s, part),
{
}

/// Lowering keeps the length of a text, moves each of its capital Latin letters by
/// the distance between the two alphabets and leaves every other character.
pub proof fn lemma_lowered_char_by_char(s: Seq<char>, i: int)
    requires
        0 <= i < s.len(),
    ensures
        lowered(s).len() == s.len(),
        'A' <= s[i] && s[i] <= 'Z' ==> lowered(s)[i] as u32 == s[i] as u32 + 32,
        !('A' <= s[i] && s[i] <= 'Z') ==> lowered(s)[i] == s[i],
        lowered(lowered(s)) == lowered(s),
{
    assert forall|j: int| 0 <= j < s.len() implies lowered(lowered(s))[j] == lowered(s)[j] by {
        if 'A' <= s[j] && s[j] <= 'Z' {
            assert(lowered(s)[j] as u32 == s[j] as u32 + 32);
        }
    }
    assert(lowered(lowered(s)) =~= lowered(s));
}

/// The text reads as the lower case word `w` once case is ignored: each character is
/// that of the word or its capital.
pub open spec fn spells(s: Seq<char>, w: Seq<char>) -> bool {
    &&& s.len() == w.len()
    &&& forall|i: int|
        0 <= i < s.len() ==> (#[trigger] s[i]) == w[i] || ('A' <= s[i] && s[i] <= 'Z' && s[i] as u32
            + 32 == w[i] as u32)
}

/// The text holds no capital Latin letter.
pub open spec fn small(w: Seq<char>) -> bool {
    forall|i: int| 0 <= i < w.len() ==> !('A' <= (#[trigger] w[i]) && w[i] <= 'Z')
}

/// Two texts agree once lowered exactly if the first spells what the second is in
/// lower case.
pub proof fn lemma_lowered_spells(s: Seq<char>, w: Seq<char>)
    requires
        small(w),
    ensures
        lowered(s) == w <==> spells(s, w),
        lowered(w) == w,
{
    assert(lowered(w) =~= w);
    if lowered(s) == w {
        assert forall|i: int| 0 <= i < s.len() implies (#[trigger] s[i]) == w[i] || ('A' <= s[i]
            && s[i] <= 'Z' && s[i] as u32 + 32 == w[i] as u32) by {
            lemma_lowered_char_by_char(s, i);
            assert(lowered(s)[i] == w[i]);
        }
    }
    if spells(s, w) {
        assert forall|i: int| 0 <= i < s.len() implies lowered(s)[i] == w[i] by {
            lemma_lowered_char_by_char(s, i);
            assert(s[i] == w[i] || ('A' <= s[i] && s[i] <= 'Z' && s[i] as u32 + 32
                == w[i] as u32));
        }
        assert(lowered(s) =~= w);
    }
}

/// Of the first half of the one byte range, exactly the blank, the tabulators, the
/// line ends and the form feed are white space.
pub proof fn lemma_plain_white_space(c: char)
    requires
        (c as u32) < 0x80,
    ensures
        is_space(c) <==> c == ' ' || c == '\t' || c == '\n' || c == '\r' || c as u32 == 11
            || c as u32 == 12,
{
}

proof fn lemma_trimmed_start_splits(s: Seq<char>)
    ensures
        trimmed_start(s).len() <= s.len(),
        s.skip(s.len() - trimmed_start(s).len()) == trimmed_start(s),
        forall|i: int|
            0 <= i < s.len() - trimmed_start(s).len() ==> is_space(#[trigger] s[i]),
        trimmed_start(s).len() > 0 ==> !is_space(trimmed_start(s)[0]),
    decreases s.len(),
{
    if s.len() > 0 && is_space(s[0]) {
        let t = s.skip(1);
        lemma_trimmed_start_splits(t);
        let n = s.len() - trimmed_start(s).len();
        assert(s.skip(n) =~= t.skip(n - 1));
        assert forall|i: int| 0 <= i < n implies is_space(#[trigger] s[i]) by {
            if i > 0 {
                assert(t[i - 1] == s[i]);
            }
        }
    } else {
        assert(s.skip(0) =~= s);
    }
}

proof fn lemma_trimmed_end_splits(s: Seq<char>)
    ensures
        trimmed_end(s).len() <= s.len(),
        s.take(trimmed_end(s).len() as int) == trimmed_end(s),
        forall|i: int| trimmed_end(s).len() <= i < s.len() ==> is_space(#[trigger] s[i]),
        trimmed_end(s).len() > 0 ==> !is_space(trimmed_end(s).last()),
    decreases s.len(),
{
    if s.len() > 0 && is_space(s.last()) {
        let t = s.drop_last();
        lemma_trimmed_end_splits(t);
        let n = trimmed_end(s).len() as int;
        assert(s.take(n) =~= t.take(n));
        assert forall|i: int| n <= i < s.len() implies is_space(#[trigger] s[i]) by {
            if i < s.len() - 1 {
                assert(t[i] == s[i]);
            }
        }
    } else {
        assert(s.take(s.len() as int) =~= s);
    }
}

/// Trimming takes white space alone from both ends, and all of it.
pub proof fn lemma_trimmed_takes_white_space(s: Seq<char>) -> (r: (Seq<char>, Seq<char>))
    ensures
        s == r.0 + trimmed(s) + r.1,
        forall|i: int| 0 <= i < r.0.len() ==> is_space(#[trigger] r.0[i]),
        forall|i: int| 0 <= i < r.1.len() ==> is_space(#[trigger] r.1[i]),
        trimmed(s).len() > 0 ==> !is_space(trimmed(s)[0]) && !is_space(trimmed(s).last()),
{
    let t = trimmed_start(s);
    let u = trimmed(s);
    lemma_trimmed_start_splits(s);
    lemma_trimmed_end_splits(t);
    let n = s.len() - t.len();
    let a = s.take(n);
    let b = t.skip(u.len() as int);
    assert(s =~= a + s.skip(n));
    assert(t =~= t.take(u.len() as int) + b);
    assert(s =~= a + u + b);
    assert forall|i: int| 0 <= i < b.len() implies is_space(#[trigger] b[i]) by {
        assert(t[i + u.len()] == b[i]);
    }
    if u.len() > 0 {
        assert(u[0] == t[0]);
    }
    (a, b)
}

/// A number is written as that without its last digit, followed by that digit.
pub proof fn lemma_decimal_digit_by_digit(n: nat, d: nat)
    requires
        d < 10,
    ensures
        decimal(d).len() == 1,
        decimal(d)[0] as u32 == 48 + d,
        n > 0 ==> decimal(10 * n + d) == decimal(n).push(decimal(d)[0]),
{
    assert((10 * n + d) / 10 == n && (10 * n + d) % 10 == d) by (nonlinear_arith)
        requires
            d < 10,
    ;
}

/// Digits are read from left to right, each worth a tenth of the one before it, and
/// nothing but digits is read.
pub proof fn lemma_digits_are_read_in_turn(s: Seq<char>, c: char)
    ensures
        digits_value(Seq::empty()) is None,
        !('0' <= c && c <= '9') ==> digits_value(s.push(c)) is None,
        '0' <= c && c <= '9' && s.len() == 0 ==> digits_value(s.push(c)) == Some(
            (c as u32 - '0' as u32) as nat,
        ),
        '0' <= c && c <= '9' && s.len() > 0 ==> digits_value(s.push(c)) == (match digits_value(s) {
            Some(v) => Some((10 * v + (c as u32 - '0' as u32)) as nat),
            None => None,
        }),
        number(seq!['+'] + s) == digits_value(s),
{
    assert(s.push(c).drop_last() =~= s);
    assert((seq!['+'] + s).skip(1) =~= s);
}

/// An empty text counts as none, and any other as itself.
pub proof fn lemma_only_empty_text_is_left_out(s: Seq<char>)
    ensures
        filled(None) is None,
        filled(Some(s)) is None <==> s.len() == 0,
        s.len() > 0 ==> filled(Some(s)) == Some(s),
{
}

} // verus!
