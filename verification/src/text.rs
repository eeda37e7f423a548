//! Text operations that the middleware share.
use vstd::prelude::*;
use vstd::string::*;

verus! {

/// The characters with the Unicode property `White_Space`.
pub open spec fn is_white(c: char) -> bool {
    let n = c as u32;
    ||| 0x9 <= n <= 0xd
    ||| n == 0x20
    ||| n == 0x85
    ||| n == 0xa0
    ||| n == 0x1680
    ||| 0x2000 <= n <= 0x200a
    ||| n == 0x2028
    ||| n == 0x2029
    ||| n == 0x202f
    ||| n == 0x205f
    ||| n == 0x3000
}

/// A line with nothing but white space.
pub open spec fn is_blank(s: Seq<char>) -> bool {
    forall|i: int| 0 <= i < s.len() ==> is_white(#[trigger] s[i])
}

/// `needle` stands somewhere in `hay`.
pub open spec fn has_part(hay: Seq<char>, needle: Seq<char>) -> bool {
    exists|i: int| part_at(hay, needle, i)
}

/// `needle` stands in `hay` at `i`.
pub open spec fn part_at(hay: Seq<char>, needle: Seq<char>, i: int) -> bool {
    0 <= i && i + needle.len() <= hay.len() && hay.subrange(i, i + needle.len()) == needle
}

/// The fields of a line that `sep` separates: one more than the line has separators.
pub open spec fn fields(s: Seq<char>, sep: char) -> Seq<Seq<char>>
    decreases s.len(),
{
    if s.len() == 0 {
        seq![Seq::empty()]
    } else {
        let before = fields(s.drop_last(), sep);
        if s.last() == sep {
            before.push(Seq::empty())
        } else {
            before.drop_last().push(before.last().push(s.last()))
        }
    }
}

/// The text of the digits of `n` to base `base`, most significant first.
pub open spec fn numeral(n: nat, base: nat) -> Seq<char>
    decreases n,
{
    if base < 2 || n < base {
        seq![digit(n)]
    } else {
        proof {
            assert(n / base < n) by (nonlinear_arith)
                requires
                    n >= base,
                    base >= 2,
            ;
        }
        numeral(n / base, base).push(digit(n % base))
    }
}

/// The lower-case digit for a value below sixteen.
pub open spec fn digit(n: nat) -> char {
    if n < 10 {
        (('0' as u32) + n) as char
    } else {
        (('a' as u32) + n - 10) as char
    }
}

/// The lower-case form of an ASCII letter; any other character as it is.
pub open spec fn ascii_lower(c: char) -> char {
    if 'A' <= c && c <= 'Z' {
        ((c as u32) + 32) as char
    } else {
        c
    }
}

/// The text with its ASCII letters in lower case.
pub open spec fn lowered(s: Seq<char>) -> Seq<char> {
    s.map_values(|c: char| ascii_lower(c))
}

/// The texts of a list.
pub open spec fn texts(list: Seq<String>) -> Seq<Seq<char>> {
    list.map_values(|s: String| s@)
}

/// Pairs of texts, taken by their views.
pub open spec fn pair_texts(pairs: Seq<(String, String)>) -> Seq<(Seq<char>, Seq<char>)> {
    pairs.map_values(|p: (String, String)| (p.0@, p.1@))
}

/// The characters of a text.
pub fn chars_of(s: &str) -> (r: Vec<char>)
    ensures
        r@ == s@,
{
    let mut r: Vec<char> = Vec::new();
    for c in it: s.chars()
        invariant
            it.seq() == s@,
            r@ == s@.take(it.index() as int),
    {
        r.push(c);
        assert(s@.take(it.index() + 1) == s@.take(it.index() as int).push(s@[it.index() as int]));
    }
    assert(s@.take(s@.len() as int) == s@);
    r
}

/// Whether two texts are the same.
pub fn same(a: &str, b: &str) -> (r: bool)
    ensures
        r == (a@ == b@),
{
    a.to_owned() == b.to_owned()
}

/// Two texts, one behind the other.
pub fn joined(a: &str, b: &str) -> (r: String)
    ensures
        r@ == a@ + b@,
{
    a.to_owned().concat(b)
}

/// Whether a character is white space.
pub fn white(c: char) -> (r: bool)
    ensures
        r == is_white(c),
{
    let n: u32 = c as u32;
    (0x9 <= n && n <= 0xd) || n == 0x20 || n == 0x85 || n == 0xa0 || n == 0x1680 || (0x2000 <= n
        && n <= 0x200a) || n == 0x2028 || n == 0x2029 || n == 0x202f || n == 0x205f || n == 0x3000
}

/// Whether a line holds nothing but white space.
pub fn blank(s: &str) -> (r: bool)
    ensures
        r == is_blank(s@),
{
    let cs = chars_of(s);
    let mut i: usize = 0;
    while i < cs.len()
        invariant
            cs@ == s@,
            i <= cs.len(),
            forall|k: int| 0 <= k < i ==> is_white(#[trigger] s@[k]),
        decreases cs.len() - i,
    {
        if !white(cs[i]) {
            return false;
        }
        i += 1;
    }
    true
}

/// Whether `needle` stands in `hay` at `i`.
fn stands_at(hay: &Vec<char>, needle: &Vec<char>, i: usize) -> (r: bool)
    requires
        i + needle@.len() <= hay@.len(),
    ensures
        r == part_at(hay@, needle@, i as int),
{
    let mut k: usize = 0;
    while k < needle.len()
        invariant
            k <= needle.len(),
            i + needle.len() <= hay.len(),
            forall|j: int| 0 <= j < k ==> hay@[i + j] == needle@[j],
        decreases needle.len() - k,
    {
        if hay[i + k] != needle[k] {
            assert(hay@.subrange(i as int, i + needle@.len())[k as int] == hay@[i + k]);
            return false;
        }
        k += 1;
    }
    assert(hay@.subrange(i as int, i + needle@.len()) == needle@);
    true
}

/// Whether `needle` stands somewhere in `hay`.
pub fn contains(hay: &str, needle: &str) -> (r: bool)
    ensures
        r == has_part(hay@, needle@),
{
    let h = chars_of(hay);
    let n = chars_of(needle);
    let mut i: usize = 0;
    if n.len() > h.len() {
        return false;
    }
    let last: usize = h.len() - n.len();
    loop
        invariant
            h@ == hay@,
            n@ == needle@,
            last == h.len() - n.len(),
            i <= last,
            forall|k: int| 0 <= k < i ==> !part_at(hay@, needle@, k),
        decreases last - i,
    {
        if stands_at(&h, &n, i) {
            return true;
        }
        if i == last {
            return false;
        }
        i += 1;
    }
}

/// The fields of a line.
pub fn split(s: &str, sep: char) -> (r: Vec<String>)
    ensures
        texts(r@) == fields(s@, sep),
{
    let cs = chars_of(s);
    let mut r: Vec<String> = Vec::new();
    let mut start: usize = 0;
    let mut i: usize = 0;
    proof {
        assert(s@.take(0) == Seq::<char>::empty());
        assert(texts(r@).push(s@.subrange(0, 0)) == fields(s@.take(0), sep));
    }
    while i < cs.len()
        invariant
            cs@ == s@,
            start <= i <= cs.len(),
            texts(r@).push(s@.subrange(start as int, i as int)) == fields(s@.take(i as int), sep),
        decreases cs.len() - i,
    {
        let ghost before = fields(s@.take(i as int), sep);
        proof {
            assert(s@.take(i + 1).drop_last() == s@.take(i as int));
            assert(s@.take(i + 1).last() == s@[i as int]);
        }
        if cs[i] == sep {
            let part = s.substring_char(start, i);
            r.push(part.to_owned());
            start = i + 1;
            assert(texts(r@) == before);
            assert(s@.subrange(start as int, i + 1) == Seq::<char>::empty());
        } else {
            assert(before.drop_last() == texts(r@));
            assert(s@.subrange(start as int, i as int).push(s@[i as int]) == s@.subrange(
                start as int,
                i + 1,
            ));
        }
        i += 1;
    }
    assert(s@.take(i as int) == s@);
    let ghost front = texts(r@);
    let part = s.substring_char(start, i);
    r.push(part.to_owned());
    assert(texts(r@) == front.push(s@.subrange(start as int, i as int)));
    r
}

/// The text of one digit.
fn digit_text(n: u64) -> (r: &'static str)
    requires
        n < 16,
    ensures
        r@ == seq![digit(n as nat)],
{
    let all = "0123456789abcdef";
    let i: usize = n as usize;
    proof {
        reveal_strlit("0123456789abcdef");
        assert(forall|c: char| #[trigger] all@.contains(c) ==> (c as u32) < 128);
    }
    assert(all.is_ascii());
    let r = all.substring_ascii(i, i + 1);
    assert(r@ == seq![digit(n as nat)]);
    r
}

/// The numeral of `n` to base `base`.
pub fn write_number(n: u64, base: u64) -> (r: String)
    requires
        2 <= base <= 16,
    ensures
        r@ == numeral(n as nat, base as nat),
    decreases n,
{
    if n < base {
        digit_text(n).to_owned()
    } else {
        assert(n / base < n) by (nonlinear_arith)
            requires
                n >= base,
                base >= 2,
        ;
        let head = write_number(n / base, base);
        joined(head.as_str(), digit_text(n % base))
    }
}

/// Whether two texts are the same but for the case of ASCII letters.
pub fn same_ignoring_case(a: &str, b: &str) -> (r: bool)
    ensures
        r == (lowered(a@) == lowered(b@)),
{
    let x = chars_of(a);
    let y = chars_of(b);
    if x.len() != y.len() {
        assert(lowered(a@).len() != lowered(b@).len());
        return false;
    }
    let mut i: usize = 0;
    while i < x.len()
        invariant
            x@ == a@,
            y@ == b@,
            x.len() == y.len(),
            i <= x.len(),
            forall|k: int| 0 <= k < i ==> lowered(a@)[k] == lowered(b@)[k],
        decreases x.len() - i,
    {
        if lower(x[i]) != lower(y[i]) {
            assert(lowered(a@)[i as int] != lowered(b@)[i as int]);
            return false;
        }
        i += 1;
    }
    assert(lowered(a@) == lowered(b@));
    true
}

/// The lower-case form of an ASCII letter.
pub fn lower(c: char) -> (r: char)
    ensures
        r == ascii_lower(c),
{
    if 'A' <= c && c <= 'Z' {
        ((c as u8) + 32) as char
    } else {
        c
    }
}

/// Whether a text begins with a character.
pub fn first_is(s: &str, c: char) -> (r: bool)
    ensures
        r == (s@.len() > 0 && s@[0] == c),
{
    let cs = chars_of(s);
    cs.len() > 0 && cs[0] == c
}

/// A text without its first character.
pub fn tail(s: &str) -> (r: String)
    requires
        s@.len() > 0,
    ensures
        r@ == s@.drop_first(),
{
    let cs = chars_of(s);
    let r = s.substring_char(1, cs.len());
    assert(s@.subrange(1, s@.len() as int) =~= s@.drop_first());
    r.to_owned()
}

/// The number that lower-case digits write to a base, most significant first.
pub open spec fn number_of(digits: Seq<char>, base: nat) -> nat
    decreases digits.len(),
{
    if digits.len() == 0 {
        0
    } else {
        let d = digits.last();
        number_of(digits.drop_last(), base) * base + (if '0' <= d <= '9' {
            (d as u32 - '0' as u32) as nat
        } else {
            (d as u32 - 'a' as u32 + 10) as nat
        })
    }
}

/// A numeral is made of the digits of its base, and reading them gives the number back.
pub proof fn numerals_are_digits(n: nat, base: nat)
    requires
        2 <= base <= 16,
    ensures
        number_of(numeral(n, base), base) == n,
        numeral(n, base).len() > 0,
        forall|i: int|
            0 <= i < numeral(n, base).len() ==> '0' <= #[trigger] numeral(n, base)[i] <= '9'
                || (base > 10 && 'a' <= numeral(n, base)[i] <= 'f'),
        !numeral(n, base).contains(':'),
        n > 0 ==> numeral(n, base)[0] != '0',
    decreases n,
{
    let all = numeral(n, base);
    if n < base {
        assert(all.drop_last() =~= Seq::empty());
        assert(number_of(all.drop_last(), base) == 0);
        assert(0 * base == 0);
        assert(all.last() == digit(n));
    } else {
        assert(n / base < n && n / base > 0) by (nonlinear_arith)
            requires
                n >= base,
                base >= 2,
        ;
        assert(n % base < base) by (nonlinear_arith)
            requires
                base >= 2,
        ;
        let front = numeral(n / base, base);
        numerals_are_digits(n / base, base);
        assert(all.drop_last() =~= front);
        assert(all.last() == digit(n % base));
        assert((n / base) * base + n % base == n) by (nonlinear_arith)
            requires
                base >= 2,
        ;
        assert(all[0] == front[0]);
        assert forall|i: int| 0 <= i < all.len() implies '0' <= #[trigger] all[i] <= '9' || (base
            > 10 && 'a' <= all[i] <= 'f') by {
            if i < front.len() {
                assert(all[i] == front[i]);
            }
        }
    }
}

/// Two numbers with the same numeral are the same.
pub proof fn numerals_differ(a: nat, b: nat, base: nat)
    requires
        2 <= base <= 16,
        numeral(a, base) == numeral(b, base),
    ensures
        a == b,
{
    numerals_are_digits(a, base);
    numerals_are_digits(b, base);
}

/// White space is what Unicode has as such: tab, line feed, vertical tab, form feed, carriage
/// return and space, and beyond ASCII the next line, the no-break space and the spaces and
/// separators of other scripts.
pub proof fn white_space_is_that_of_unicode(c: char, r: bool)
    requires
        call_ensures(white, (c,), r),
    ensures
        r == (c == '\t' || c == '\n' || c == '\u{b}' || c == '\u{c}' || c == '\r' || c == ' ' || c
            == '\u{85}' || c == '\u{a0}' || c == '\u{1680}' || '\u{2000}' <= c <= '\u{200a}' || c
            == '\u{2028}' || c == '\u{2029}' || c == '\u{202f}' || c == '\u{205f}' || c
            == '\u{3000}'),
{
}

/// A text is blank where each of its characters is white space.
pub proof fn blank_texts_are_white(s: &str, r: bool)
    requires
        call_ensures(blank, (s,), r),
    ensures
        r == (forall|i: int| 0 <= i < s@.len() ==> is_white(#[trigger] s@[i])),
{
}

/// One text holds another where something, the other and something again make it up.
pub proof fn parts_stand_between(hay: &str, needle: &str, r: bool)
    requires
        call_ensures(contains, (hay, needle), r),
    ensures
        r == (exists|before: Seq<char>, after: Seq<char>| #[trigger]
            (before + needle@ + after) == hay@),
{
    let h = hay@;
    let n = needle@;
    if r {
        let i = choose|i: int| part_at(h, n, i);
        let before = h.take(i);
        let after = h.skip(i + n.len());
        assert(before + n + after =~= h) by {
            assert forall|k: int| 0 <= k < h.len() implies (before + n + after)[k] == h[k] by {
                if i <= k < i + n.len() {
                    assert(h.subrange(i, i + n.len())[k - i] == h[k]);
                }
            }
        }
    }
    if exists|before: Seq<char>, after: Seq<char>| #[trigger] (before + n + after) == h {
        let (before, after) = choose|before: Seq<char>, after: Seq<char>| #[trigger]
            (before + n + after) == h;
        assert(h.subrange(before.len() as int, (before.len() + n.len()) as int) =~= n);
        assert(part_at(h, n, before.len() as int));
    }
}

/// The texts of a list, one behind the other with a separator between.
pub open spec fn rejoined(list: Seq<Seq<char>>, sep: char) -> Seq<char>
    decreases list.len(),
{
    if list.len() == 0 {
        Seq::empty()
    } else if list.len() == 1 {
        list[0]
    } else {
        rejoined(list.drop_last(), sep) + seq![sep] + list.last()
    }
}

proof fn fields_make_up_the_text(s: Seq<char>, sep: char)
    ensures
        fields(s, sep).len() > 0,
        rejoined(fields(s, sep), sep) == s,
        forall|i: int|
            0 <= i < fields(s, sep).len() ==> !(#[trigger] fields(s, sep)[i]).contains(sep),
    decreases s.len(),
{
    let all = fields(s, sep);
    if s.len() == 0 {
        assert(rejoined(all, sep) =~= s);
    } else {
        let before = fields(s.drop_last(), sep);
        fields_make_up_the_text(s.drop_last(), sep);
        if s.last() == sep {
            assert(all.drop_last() =~= before);
            assert(rejoined(all, sep) =~= s);
        } else {
            assert(all.drop_last() =~= before.drop_last());
            assert(all.last() == before.last().push(s.last()));
            if before.len() == 1 {
                assert(rejoined(all, sep) =~= s);
            } else {
                assert(rejoined(all, sep) =~= rejoined(before, sep).push(s.last()));
                assert(rejoined(all, sep) =~= s);
            }
            assert forall|i: int| 0 <= i < all.len() implies !(#[trigger] all[i]).contains(
                sep,
            ) by {
                if i < before.len() - 1 {
                    assert(all[i] == before[i]);
                } else {
                    assert(!before[i].contains(sep));
                    assert(all[i] == before[i].push(s.last()));
                    if all[i].contains(sep) {
                        let k = all[i].index_of(sep);
                        assert(k < before[i].len());
                        assert(before[i][k] == sep);
                    }
                }
            }
        }
    }
}

/// The fields of a line hold no separator, and with one between each two of them they make
/// up the line.
pub proof fn fields_are_split_and_joined(s: &str, sep: char, parts: Vec<String>)
    requires
        call_ensures(split, (s, sep), parts),
    ensures
        parts@.len() > 0,
        rejoined(texts(parts@), sep) == s@,
        forall|i: int| 0 <= i < parts@.len() ==> !(#[trigger] parts@[i])@.contains(sep),
{
    fields_make_up_the_text(s@, sep);
    assert forall|i: int| 0 <= i < parts@.len() implies !(#[trigger] parts@[i])@.contains(
        sep,
    ) by {
        assert(texts(parts@)[i] == parts@[i]@);
        assert(!fields(s@, sep)[i].contains(sep));
    }
}

/// Reading the digits that a number was written with gives the number back.
pub proof fn written_numbers_are_read_back(n: u64, base: u64, text: String)
    requires
        call_ensures(write_number, (n, base), text),
        2 <= base <= 16,
    ensures
        number_of(text@, base as nat) == n,
        text@.len() > 0,
        n > 0 ==> text@[0] != '0',
        n == 0 ==> text@ == seq!['0'],
{
    numerals_are_digits(n as nat, base as nat);
}

/// Two texts are the same but for case where at each place stands the same character, or the
/// same ASCII letter, large or small.
pub proof fn case_is_that_of_ascii_letters(a: &str, b: &str, r: bool)
    requires
        call_ensures(same_ignoring_case, (a, b), r),
    ensures
        r == (a@.len() == b@.len() && forall|i: int|
            0 <= i < a@.len() ==> {
                ||| #[trigger] a@[i] == b@[i]
                ||| 'A' <= a@[i] <= 'Z' && b@[i] as u32 == a@[i] as u32 + 32
                ||| 'A' <= b@[i] <= 'Z' && a@[i] as u32 == b@[i] as u32 + 32
            }),
{
    let x = a@;
    let y = b@;
    if x.len() == y.len() && forall|i: int|
        0 <= i < x.len() ==> {
            ||| #[trigger] x[i] == y[i]
            ||| 'A' <= x[i] <= 'Z' && y[i] as u32 == x[i] as u32 + 32
            ||| 'A' <= y[i] <= 'Z' && x[i] as u32 == y[i] as u32 + 32
        } {
        assert(lowered(x) =~= lowered(y));
    }
    if lowered(x) == lowered(y) {
        assert(lowered(x).len() == lowered(y).len());
        assert forall|i: int| 0 <= i < x.len() implies {
            ||| #[trigger] x[i] == y[i]
            ||| 'A' <= x[i] <= 'Z' && y[i] as u32 == x[i] as u32 + 32
            ||| 'A' <= y[i] <= 'Z' && x[i] as u32 == y[i] as u32 + 32
        } by {
            assert(lowered(x)[i] == lowered(y)[i]);
        }
    }
}

proof fn texts_without_separator_are_one_field(s: Seq<char>, sep: char)
    requires
        !s.contains(sep),
    ensures
        fields(s, sep) == seq![s],
    decreases s.len(),
{
    if s.len() > 0 {
        let front = s.drop_last();
        assert(s.contains(s.last()));
        assert(!front.contains(sep)) by {
            if front.contains(sep) {
                let k = front.index_of(sep);
                assert(s[k] == sep);
            }
        }
        texts_without_separator_are_one_field(front, sep);
        assert(front.push(s.last()) =~= s);
        assert(fields(s, sep) =~= seq![s]);
    } else {
        assert(s =~= Seq::empty());
    }
}

proof fn one_more_field(s: Seq<char>, last: Seq<char>, sep: char)
    requires
        !last.contains(sep),
    ensures
        fields(s + seq![sep] + last, sep) == fields(s, sep).push(last),
    decreases last.len(),
{
    let all = s + seq![sep] + last;
    if last.len() == 0 {
        assert(all.drop_last() =~= s);
        assert(all.last() == sep);
        assert(last =~= Seq::empty());
    } else {
        let front = last.drop_last();
        assert(last.contains(last.last()));
        assert(!front.contains(sep)) by {
            if front.contains(sep) {
                let k = front.index_of(sep);
                assert(last[k] == sep);
            }
        }
        one_more_field(s, front, sep);
        assert(all.drop_last() =~= s + seq![sep] + front);
        assert(all.last() == last.last());
        let before = fields(s, sep).push(front);
        assert(before.drop_last() =~= fields(s, sep));
        assert(front.push(last.last()) =~= last);
    }
}

/// Texts that hold no separator, joined with one between each two, are the fields again.
pub proof fn joined_texts_are_the_fields(list: Seq<Seq<char>>, sep: char)
    requires
        list.len() > 0,
        forall|i: int| 0 <= i < list.len() ==> !(#[trigger] list[i]).contains(sep),
    ensures
        fields(rejoined(list, sep), sep) == list,
    decreases list.len(),
{
    if list.len() == 1 {
        texts_without_separator_are_one_field(list[0], sep);
        assert(seq![list[0]] =~= list);
    } else {
        let front = list.drop_last();
        assert forall|i: int| 0 <= i < front.len() implies !(#[trigger] front[i]).contains(
            sep,
        ) by {
            assert(front[i] == list[i]);
        }
        assert(list[list.len() - 1] == list.last());
        joined_texts_are_the_fields(front, sep);
        one_more_field(rejoined(front, sep), list.last(), sep);
        assert(front.push(list.last()) =~= list);
    }
}

} // verus!
