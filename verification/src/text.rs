//! Operations on text, stated over sequences of characters.
use vstd::prelude::*;
use vstd::string::*;

verus! {

/// Whether `part` occurs in `whole` as a run of neighbouring characters.
pub open spec fn is_part(part: Seq<char>, whole: Seq<char>) -> bool {
    exists|i: int|
        0 <= i && i + part.len() <= whole.len() && #[trigger] whole.subrange(i, i + part.len())
            == part
}

/// What stands between two texts is a part of all three together.
pub proof fn lemma_part_between(front: Seq<char>, part: Seq<char>, back: Seq<char>)
    ensures
        is_part(part, front + part + back),
{
    let whole = front + part + back;
    let i = front.len() as int;
    assert(whole.subrange(i, i + part.len()) =~= part);
}

/// Whether `whole` begins with `head`.
pub open spec fn begins_with(whole: Seq<char>, head: Seq<char>) -> bool {
    head.len() <= whole.len() && whole.subrange(0, head.len() as int) == head
}

/// The character that `u8::to_ascii_lowercase` describes: `A` to `Z` become `a` to `z`.
pub open spec fn ascii_lower_char(c: char) -> char {
    if 'A' <= c && c <= 'Z' {
        (c as u32 + 32) as char
    } else {
        c
    }
}

/// `s` with every ASCII letter in lower case.
pub open spec fn ascii_lower(s: Seq<char>) -> Seq<char> {
    Seq::new(s.len(), |i: int| ascii_lower_char(s[i]))
}

/// The text that `str::to_lowercase` returns for `s`.
pub uninterp spec fn lowercase(s: Seq<char>) -> Seq<char>;

/// What `char::is_whitespace` answers for `c`.
pub uninterp spec fn white_space(c: char) -> bool;

/// The text that `String::from_utf8_lossy` makes of `bytes`.
pub uninterp spec fn utf8_lossy(bytes: Seq<u8>) -> Seq<char>;

/// The text that `format!("{:?}", ..)` writes for a list of texts.
pub uninterp spec fn debug_list(items: Seq<Seq<char>>) -> Seq<char>;

/// `str::contains` with a text as the pattern: whether the pattern occurs in the text.
#[verifier::external_body]
pub(crate) fn contains(whole: &str, part: &str) -> (found: bool)
    ensures
        found == is_part(part@, whole@),
{
    whole.contains(part)
}

/// `str::to_lowercase`: the result depends on the text alone, by Unicode's rules.
#[verifier::external_body]
pub(crate) fn to_lowercase(s: &str) -> (r: String)
    ensures
        r@ == lowercase(s@),
{
    s.to_lowercase()
}

/// `str::to_ascii_lowercase`: ASCII letters in lower case, every other character as it was.
#[verifier::external_body]
pub(crate) fn to_ascii_lowercase(s: &str) -> (r: String)
    ensures
        r@ == ascii_lower(s@),
{
    s.to_ascii_lowercase()
}

/// `char::is_whitespace`: a property of the character alone, from Unicode's tables.
#[verifier::external_body]
fn is_whitespace(c: char) -> (b: bool)
    ensures
        b == white_space(c),
{
    c.is_whitespace()
}

/// `String::from_utf8_lossy`: the result depends on the bytes alone.
#[verifier::external_body]
pub(crate) fn from_utf8_lossy(bytes: &Vec<u8>) -> (r: String)
    ensures
        r@ == utf8_lossy(bytes@),
{
    String::from_utf8_lossy(bytes).into_owned()
}

/// `format!("{:?}", ..)` on a list of texts: the result depends on the texts alone.
#[verifier::external_body]
pub(crate) fn format_list(items: &Vec<String>) -> (r: String)
    ensures
        r@ == debug_list(texts(items@)),
{
    format!("{:?}", items)
}

/// The character sequences of a list of string slices.
pub open spec fn views(items: Seq<&str>) -> Seq<Seq<char>> {
    Seq::new(items.len(), |i: int| items[i]@)
}

/// Whether one of `words` occurs in `whole`.
pub open spec fn mentions(whole: Seq<char>, words: Seq<Seq<char>>) -> bool {
    exists|i: int| 0 <= i < words.len() && #[trigger] is_part(words[i], whole)
}

/// The character sequences of a list of strings.
pub open spec fn texts(items: Seq<String>) -> Seq<Seq<char>> {
    Seq::new(items.len(), |i: int| items[i]@)
}

/// The characters of an optional string.
pub open spec fn optional(s: Option<String>) -> Option<Seq<char>> {
    match s {
        Some(x) => Some(x@),
        None => None,
    }
}

/// A copy of an optional string.
pub fn copy_optional(s: &Option<String>) -> (r: Option<String>)
    ensures
        optional(r) == optional(*s),
{
    match s {
        Some(x) => Some(x.clone()),
        None => None,
    }
}

/// Whether two texts hold the same characters.
pub fn same(a: &str, b: &str) -> (r: bool)
    ensures
        r == (a@ == b@),
{
    let x = a.as_bytes();
    let y = b.as_bytes();
    proof {
        vstd::utf8::encode_utf8_decode_utf8(a@);
        vstd::utf8::encode_utf8_decode_utf8(b@);
    }
    if x.len() != y.len() {
        return false;
    }
    let mut i: usize = 0;
    while i < x.len()
        invariant
            i <= x@.len(),
            x@.len() == y@.len(),
            x@ == vstd::utf8::encode_utf8(a@),
            y@ == vstd::utf8::encode_utf8(b@),
            forall|k: int| 0 <= k < i ==> x@[k] == y@[k],
        decreases x.len() - i,
    {
        if x[i] != y[i] {
            return false;
        }
        i += 1;
    }
    assert(x@ =~= y@);
    true
}

/// Whether `item` is one of `items`.
pub fn listed(items: &Vec<String>, item: &str) -> (r: bool)
    ensures
        r == texts(items@).contains(item@),
{
    let mut i: usize = 0;
    while i < items.len()
        invariant
            i <= items@.len(),
            forall|k: int| 0 <= k < i ==> items@[k]@ != item@,
        decreases items.len() - i,
    {
        if same(items[i].as_str(), item) {
            assert(texts(items@)[i as int] == item@);
            return true;
        }
        i += 1;
    }
    assert forall|k: int| 0 <= k < texts(items@).len() implies texts(items@)[k] != item@ by {}
    false
}

/// A copy of a list of strings, with the same texts.
pub fn copy_list(items: &Vec<String>) -> (r: Vec<String>)
    ensures
        r@ == items@,
{
    let mut r: Vec<String> = Vec::new();
    let mut i: usize = 0;
    while i < items.len()
        invariant
            i <= items@.len(),
            r@ == items@.subrange(0, i as int),
        decreases items.len() - i,
    {
        r.push(items[i].clone());
        i += 1;
    }
    assert(items@.subrange(0, i as int) =~= items@);
    r
}

/// The characters of `s`, in order.
pub fn chars_of(s: &str) -> (v: Vec<char>)
    ensures
        v@ == s@,
{
    let mut v: Vec<char> = Vec::new();
    for c in it: s.chars()
        invariant
            v@ == s@.subrange(0, it.index()),
            it.seq() == s@,
    {
        v.push(c);
    }
    assert(s@.subrange(0, s@.len() as int) =~= s@);
    v
}

/// Whether `whole` begins with `head`.
pub fn starts_with(whole: &str, head: &str) -> (r: bool)
    ensures
        r == begins_with(whole@, head@),
{
    let n: usize = whole.unicode_len();
    let m: usize = head.unicode_len();
    if m > n {
        return false;
    }
    same(whole.substring_char(0, m), head)
}

/// What follows `head` in a text that begins with it.
pub open spec fn after(whole: Seq<char>, head: Seq<char>) -> Option<Seq<char>> {
    if begins_with(whole, head) {
        Some(whole.subrange(head.len() as int, whole.len() as int))
    } else {
        None
    }
}

/// What follows `head` in `whole`, if `whole` begins with it.
pub fn strip_prefix<'a>(whole: &'a str, head: &str) -> (r: Option<&'a str>)
    ensures
        match r {
            Some(rest) => after(whole@, head@) == Some(rest@),
            None => after(whole@, head@) is None,
        },
{
    if starts_with(whole, head) {
        let n: usize = whole.unicode_len();
        let m: usize = head.unicode_len();
        Some(whole.substring_char(m, n))
    } else {
        None
    }
}

/// `s` without the white space that it begins with.
pub open spec fn trim_front(s: Seq<char>) -> Seq<char>
    decreases s.len(),
{
    if s.len() > 0 && white_space(s[0]) {
        trim_front(s.drop_first())
    } else {
        s
    }
}

/// `s` without the white space that it ends with.
pub open spec fn trim_back(s: Seq<char>) -> Seq<char>
    decreases s.len(),
{
    if s.len() > 0 && white_space(s.last()) {
        trim_back(s.drop_last())
    } else {
        s
    }
}

/// `s` without the white space around it.
pub open spec fn trimmed(s: Seq<char>) -> Seq<char> {
    trim_back(trim_front(s))
}

/// `s` without the white space that it begins with.
pub fn trim_start(s: &str) -> (r: &str)
    ensures
        r@ == trim_front(s@),
{
    let cs = chars_of(s);
    let mut i: usize = 0;
    assert(s@.subrange(0, s@.len() as int) =~= s@);
    while i < cs.len() && is_whitespace(cs[i])
        invariant
            i <= cs@.len(),
            cs@ == s@,
            trim_front(s@) == trim_front(s@.subrange(i as int, s@.len() as int)),
        decreases cs.len() - i,
    {
        assert(s@.subrange(i as int, s@.len() as int).drop_first() =~= s@.subrange(
            i + 1,
            s@.len() as int,
        ));
        i += 1;
    }
    s.substring_char(i, cs.len())
}

/// `s` without the white space around it.
pub fn trim(s: &str) -> (r: &str)
    ensures
        r@ == trimmed(s@),
{
    let t = trim_start(s);
    let cs = chars_of(t);
    let mut n: usize = cs.len();
    assert(t@.subrange(0, n as int) =~= t@);
    while n > 0 && is_whitespace(cs[n - 1])
        invariant
            n <= cs@.len(),
            cs@ == t@,
            trim_back(t@) == trim_back(t@.subrange(0, n as int)),
        decreases n,
    {
        assert(t@.subrange(0, n as int).drop_last() =~= t@.subrange(0, n - 1));
        n -= 1;
    }
    t.substring_char(0, n)
}

/// The decimal digit of a number below ten.
pub open spec fn digit(d: nat) -> char {
    (48 + d) as char
}

/// A number in decimal notation, without leading zeros.
pub open spec fn decimal(n: nat) -> Seq<char>
    decreases n,
{
    if n < 10 {
        seq![digit(n)]
    } else {
        decimal(n / 10).push(digit(n % 10))
    }
}

/// The text of a decimal digit.
fn digit_text(d: u64) -> (r: &'static str)
    requires
        d < 10,
    ensures
        r@ == seq![digit(d as nat)],
{
    proof {
        reveal_strlit("0");
        reveal_strlit("1");
        reveal_strlit("2");
        reveal_strlit("3");
        reveal_strlit("4");
        reveal_strlit("5");
        reveal_strlit("6");
        reveal_strlit("7");
        reveal_strlit("8");
        reveal_strlit("9");
    }
    let r: &'static str = if d == 0 {
        "0"
    } else if d == 1 {
        "1"
    } else if d == 2 {
        "2"
    } else if d == 3 {
        "3"
    } else if d == 4 {
        "4"
    } else if d == 5 {
        "5"
    } else if d == 6 {
        "6"
    } else if d == 7 {
        "7"
    } else if d == 8 {
        "8"
    } else {
        "9"
    };
    assert(r@ =~= seq![digit(d as nat)]);
    r
}

/// A number in decimal notation.
pub fn number(n: u64) -> (r: String)
    ensures
        r@ == decimal(n as nat),
    decreases n,
{
    if n < 10 {
        digit_text(n).to_owned()
    } else {
        let mut r = number(n / 10);
        r.append(digit_text(n % 10));
        assert(r@ =~= decimal(n as nat));
        r
    }
}

/// How many bytes a character takes in UTF-8.
pub open spec fn width(c: char) -> nat {
    vstd::utf8::encode_scalar(c as u32).len()
}

/// How many of the first characters of `s` take no more than `room` bytes together.
pub open spec fn fitting(s: Seq<char>, room: int) -> nat
    decreases s.len(),
{
    if s.len() == 0 || width(s[0]) > room {
        0
    } else {
        1 + fitting(s.drop_first(), room - width(s[0]))
    }
}

/// How many bytes an ellipsis takes.
pub const ELLIPSIS: usize = 3;

/// `s` where it takes no more than `max` bytes, else as many of its first characters as fit
/// together with an ellipsis, and the ellipsis. Where not even the ellipsis fits, it is left out.
pub open spec fn clipped(s: Seq<char>, max: nat) -> Seq<char> {
    if vstd::utf8::encode_utf8(s).len() <= max {
        s
    } else if max < ELLIPSIS {
        s.subrange(0, fitting(s, max as int) as int)
    } else {
        s.subrange(0, fitting(s, max - ELLIPSIS) as int) + "…"@
    }
}

/// The bytes of two texts in a row are those of both.
proof fn lemma_bytes_add(a: Seq<char>, b: Seq<char>)
    ensures
        vstd::utf8::encode_utf8(a + b).len() == vstd::utf8::encode_utf8(a).len()
            + vstd::utf8::encode_utf8(b).len(),
    decreases a.len(),
{
    if a.len() == 0 {
        assert(a + b =~= b);
    } else {
        assert((a + b).drop_first() =~= a.drop_first() + b);
        lemma_bytes_add(a.drop_first(), b);
    }
}

/// The characters that fit take no more than there is room for.
proof fn lemma_fitting(s: Seq<char>, room: int)
    requires
        room >= 0,
    ensures
        fitting(s, room) <= s.len(),
        vstd::utf8::encode_utf8(s.subrange(0, fitting(s, room) as int)).len() <= room,
    decreases s.len(),
{
    if s.len() > 0 && width(s[0]) <= room {
        let rest = s.drop_first();
        let left = room - width(s[0]);
        lemma_fitting(rest, left);
        let n = fitting(s, room) as int;
        assert(s.subrange(0, n).drop_first() =~= rest.subrange(0, n - 1));
    }
}

/// However little room there is, a clipped text fits it.
pub proof fn law_clipped_text_fits(s: Seq<char>, max: nat)
    ensures
        vstd::utf8::encode_utf8(clipped(s, max)).len() <= max,
{
    if vstd::utf8::encode_utf8(s).len() > max {
        if max < ELLIPSIS {
            lemma_fitting(s, max as int);
        } else {
            lemma_fitting(s, max - ELLIPSIS);
            reveal_strlit("…");
            let dots = "…"@;
            assert(dots.len() == 1 && dots[0] == '…');
            assert(dots.drop_first().len() == 0);
            assert(vstd::utf8::encode_scalar('…' as u32).len() == 3);
            reveal_with_fuel(vstd::utf8::encode_utf8, 2);
            lemma_bytes_add(s.subrange(0, fitting(s, max - ELLIPSIS) as int), dots);
        }
    }
}

fn char_width(c: char) -> (n: usize)
    ensures
        n == width(c),
        1 <= n <= 4,
{
    let u: u32 = c as u32;
    if u <= 0x7f {
        1
    } else if u <= 0x7ff {
        2
    } else if u <= 0xffff {
        3
    } else {
        4
    }
}

/// `s` cut to at most `max` bytes at the border of a character, with an ellipsis where something
/// was cut off and there is room for it.
pub fn truncate(s: &str, max: usize) -> (r: String)
    ensures
        r@ == clipped(s@, max as nat),
        vstd::utf8::encode_utf8(r@).len() <= max,
{
    proof {
        law_clipped_text_fits(s@, max as nat);
    }
    if s.as_bytes().len() <= max {
        return s.to_owned();
    }
    let all: usize = if max < ELLIPSIS {
        max
    } else {
        max - ELLIPSIS
    };
    let cs = chars_of(s);
    let mut i: usize = 0;
    let mut room: usize = all;
    assert(s@.subrange(0, s@.len() as int) =~= s@);
    while i < cs.len() && char_width(cs[i]) <= room
        invariant
            i <= cs@.len(),
            cs@ == s@,
            fitting(s@, all as int) == i + fitting(
                s@.subrange(i as int, s@.len() as int),
                room as int,
            ),
        decreases cs.len() - i,
    {
        assert(s@.subrange(i as int, s@.len() as int).drop_first() =~= s@.subrange(
            i + 1,
            s@.len() as int,
        ));
        room -= char_width(cs[i]);
        i += 1;
    }
    let mut r = s.substring_char(0, i).to_owned();
    if max >= ELLIPSIS {
        r.append("…");
    }
    r
}

/// The texts one behind the other, with `between` between each two.
pub open spec fn joined(items: Seq<Seq<char>>, between: Seq<char>) -> Seq<char>
    decreases items.len(),
{
    if items.len() == 0 {
        Seq::empty()
    } else if items.len() == 1 {
        items[0]
    } else {
        joined(items.drop_last(), between) + between + items.last()
    }
}

/// The texts one behind the other, with `between` between each two.
pub fn join(items: &Vec<String>, between: &str) -> (r: String)
    ensures
        r@ == joined(texts(items@), between@),
{
    let mut r = String::new();
    let mut i: usize = 0;
    while i < items.len()
        invariant
            i <= items@.len(),
            r@ == joined(texts(items@.subrange(0, i as int)), between@),
        decreases items.len() - i,
    {
        let ghost upto = texts(items@.subrange(0, i + 1));
        assert(upto.drop_last() =~= texts(items@.subrange(0, i as int)));
        assert(upto.last() == items@[i as int]@);
        if i > 0 {
            r.append(between);
        }
        r.append(items[i].as_str());
        assert(r@ =~= joined(upto, between@));
        i += 1;
    }
    assert(items@.subrange(0, i as int) =~= items@);
    r
}

/// What is a part of a text stands between two other parts of it.
pub proof fn law_parts_stand_between(part: Seq<char>, whole: Seq<char>)
    ensures
        is_part(part, whole) <==> exists|front: Seq<char>, back: Seq<char>| #[trigger]
            (front + part + back) == whole,
{
    if is_part(part, whole) {
        let i = choose|i: int|
            0 <= i && i + part.len() <= whole.len() && #[trigger] whole.subrange(i, i + part.len())
                == part;
        let front = whole.subrange(0, i);
        let back = whole.subrange(i + part.len(), whole.len() as int);
        assert(front + part + back =~= whole) by {
            assert forall|k: int| i <= k < i + part.len() implies whole[k] == part[k - i] by {
                assert(whole.subrange(i, i + part.len())[k - i] == whole[k]);
            }
        }
    }
    assert forall|front: Seq<char>, back: Seq<char>| #[trigger]
        (front + part + back) == whole implies is_part(part, whole) by {
        lemma_part_between(front, part, back);
    }
}

/// What follows the head of a text is the rest of it.
pub proof fn law_head_and_rest(whole: Seq<char>, head: Seq<char>, rest: Seq<char>)
    ensures
        after(whole, head) == Some(rest) <==> whole == head + rest,
{
    if whole == head + rest {
        assert(whole.subrange(0, head.len() as int) =~= head);
        assert(whole.subrange(head.len() as int, whole.len() as int) =~= rest);
    }
    if after(whole, head) == Some(rest) {
        assert(whole =~= whole.subrange(0, head.len() as int) + rest);
    }
}

proof fn lemma_trim_front(s: Seq<char>)
    ensures
        ({
            let t = trim_front(s);
            let n = s.len() - t.len();
            &&& 0 <= n
            &&& t == s.subrange(n, s.len() as int)
            &&& t.len() > 0 ==> !white_space(t[0])
            &&& forall|i: int| 0 <= i < n ==> white_space(s[i])
        }),
    decreases s.len(),
{
    if s.len() > 0 && white_space(s[0]) {
        let rest = s.drop_first();
        lemma_trim_front(rest);
        let t = trim_front(s);
        let n = s.len() - t.len();
        assert(t =~= s.subrange(n, s.len() as int));
        assert forall|i: int| 0 <= i < n implies white_space(s[i]) by {
            if i > 0 {
                assert(rest[i - 1] == s[i]);
            }
        }
    } else {
        assert(s =~= s.subrange(0, s.len() as int));
    }
}

proof fn lemma_trim_back(s: Seq<char>)
    ensures
        ({
            let t = trim_back(s);
            &&& t.len() <= s.len()
            &&& t == s.subrange(0, t.len() as int)
            &&& t.len() > 0 ==> !white_space(t.last())
            &&& forall|i: int| t.len() <= i < s.len() ==> white_space(s[i])
        }),
    decreases s.len(),
{
    if s.len() > 0 && white_space(s.last()) {
        let rest = s.drop_last();
        lemma_trim_back(rest);
        let t = trim_back(s);
        assert(t =~= s.subrange(0, t.len() as int));
        assert forall|i: int| t.len() <= i < s.len() implies white_space(s[i]) by {
            if i < rest.len() {
                assert(rest[i] == s[i]);
            }
        }
    } else {
        assert(s =~= s.subrange(0, s.len() as int));
    }
}

/// Trimming takes away the white space around a text and nothing else.
pub proof fn law_trimming(s: Seq<char>)
    ensures
        ({
            let t = trimmed(s);
            &&& t.len() > 0 ==> !white_space(t[0]) && !white_space(t.last())
            &&& exists|i: int|
                0 <= i && i + t.len() <= s.len() && #[trigger] s.subrange(i, i + t.len()) == t && (
                forall|k: int| (0 <= k < i || i + t.len() <= k < s.len()) ==> white_space(s[k]))
        }),
{
    let f = trim_front(s);
    let t = trimmed(s);
    lemma_trim_front(s);
    lemma_trim_back(f);
    let i = s.len() - f.len();
    assert(s.subrange(i, i + t.len()) =~= t);
    assert forall|k: int| (0 <= k < i || i + t.len() <= k < s.len()) implies white_space(s[k]) by {
        if i + t.len() <= k {
            assert(f[k - i] == s[k]);
        }
    }
    if t.len() > 0 {
        assert(t[0] == f[0]);
    }
}

/// The number that decimal digits stand for.
pub open spec fn decimal_value(digits: Seq<char>) -> int
    decreases digits.len(),
{
    if digits.len() == 0 {
        0
    } else {
        10 * decimal_value(digits.drop_last()) + (digits.last() as int - 48)
    }
}

/// A number is written in decimal digits that stand for it, without a leading zero.
pub proof fn law_decimal_notation(n: nat)
    ensures
        decimal_value(decimal(n)) == n,
        decimal(n).len() > 0,
        forall|i: int| 0 <= i < decimal(n).len() ==> 48 <= (#[trigger] decimal(n)[i]) as int <= 57,
        n > 0 ==> decimal(n)[0] != '0',
    decreases n,
{
    if n < 10 {
        reveal_with_fuel(decimal_value, 2);
        assert(decimal(n).drop_last() =~= Seq::empty());
    } else {
        law_decimal_notation(n / 10);
        assert(decimal(n).drop_last() =~= decimal(n / 10));
        assert(decimal(n)[0] == decimal(n / 10)[0]);
    }
}

/// The widths of the first characters that fit, and that of the next.
proof fn lemma_fitting_most(s: Seq<char>, room: int)
    requires
        room >= 0,
    ensures
        ({
            let n = fitting(s, room) as int;
            &&& n <= s.len()
            &&& vstd::utf8::encode_utf8(s.subrange(0, n)).len() <= room
            &&& n < s.len() ==> vstd::utf8::encode_utf8(s.subrange(0, n + 1)).len() > room
        }),
    decreases s.len(),
{
    let n = fitting(s, room) as int;
    if s.len() == 0 {
        assert(s.subrange(0, 0) =~= Seq::empty());
        assert(vstd::utf8::encode_utf8(s.subrange(0, 0)).len() == 0);
    } else if width(s[0]) > room {
        assert(vstd::utf8::encode_utf8(s.subrange(0, 0)).len() == 0);
        let one = s.subrange(0, 1);
        assert(one.drop_first() =~= Seq::empty());
        assert(one[0] == s[0]);
        assert(vstd::utf8::encode_utf8(one).len() == width(s[0]) + vstd::utf8::encode_utf8(
            one.drop_first(),
        ).len());
    } else {
        let rest = s.drop_first();
        lemma_fitting_most(rest, room - width(s[0]));
        let a = s.subrange(0, n);
        assert(a.drop_first() =~= rest.subrange(0, n - 1));
        assert(a[0] == s[0]);
        assert(vstd::utf8::encode_utf8(a).len() == width(s[0]) + vstd::utf8::encode_utf8(
            a.drop_first(),
        ).len());
        if n < s.len() {
            let b = s.subrange(0, n + 1);
            assert(b.drop_first() =~= rest.subrange(0, n));
            assert(b[0] == s[0]);
            assert(vstd::utf8::encode_utf8(b).len() == width(s[0]) + vstd::utf8::encode_utf8(
                b.drop_first(),
            ).len());
        }
    }
}

/// A text that fits stays as it is. Of a longer one the longest beginning stays that fits together
/// with an ellipsis, which follows it; where not even that fits, the longest beginning that fits.
pub proof fn law_clipping_keeps_what_fits(s: Seq<char>, max: nat)
    ensures
        vstd::utf8::encode_utf8(s).len() <= max ==> clipped(s, max) == s,
        vstd::utf8::encode_utf8(s).len() > max ==> exists|n: int|
            #![trigger s.subrange(0, n)]
            0 <= n < s.len() && clipped(s, max) == s.subrange(0, n) + (if max >= 3 {
                "…"@
            } else {
                Seq::empty()
            }) && vstd::utf8::encode_utf8(s.subrange(0, n + 1)).len() + (if max >= 3 {
                3int
            } else {
                0int
            }) > max,
{
    if vstd::utf8::encode_utf8(s).len() > max {
        let room = if max >= 3 {
            max - 3
        } else {
            max as int
        };
        lemma_fitting_most(s, room);
        let n = fitting(s, room) as int;
        if n == s.len() {
            assert(s.subrange(0, n) =~= s);
        }
        assert(clipped(s, max) =~= s.subrange(0, n) + (if max >= 3 {
            "…"@
        } else {
            Seq::empty()
        }));
    }
}

/// Texts are joined in their order, with what belongs between them between each two and nowhere
/// else.
pub proof fn law_joining(front: Seq<Seq<char>>, back: Seq<Seq<char>>, between: Seq<char>)
    ensures
        joined(Seq::empty(), between).len() == 0,
        front.len() == 1 ==> joined(front, between) == front[0],
        front.len() > 0 && back.len() > 0 ==> joined(front + back, between) == joined(
            front,
            between,
        ) + between + joined(back, between),
    decreases back.len(),
{
    if front.len() > 0 && back.len() > 0 {
        let all = front + back;
        assert(all.last() == back.last());
        if back.len() == 1 {
            assert(all.drop_last() =~= front);
        } else {
            law_joining(front, back.drop_last(), between);
            assert(all.drop_last() =~= front + back.drop_last());
            assert(joined(all, between) =~= joined(front, between) + between + joined(
                back,
                between,
            ));
        }
    }
}

/// The lower case of ASCII: the letters `A` to `Z` become `a` to `z`, in their places, and every
/// other character stays.
pub proof fn law_ascii_lower_case(s: Seq<char>, i: int)
    requires
        0 <= i < s.len(),
    ensures
        ascii_lower(s).len() == s.len(),
        65 <= s[i] as int <= 90 ==> ascii_lower(s)[i] as int == s[i] as int + 32,
        !(65 <= s[i] as int <= 90) ==> ascii_lower(s)[i] == s[i],
{
}

} // verus!
