//! Text as sequences of characters: the comparisons and the formatting that the
//! rest of the library builds on.
use vstd::prelude::*;

verus! {

/// The characters of every string of a list.
pub open spec fn texts(list: Seq<String>) -> Seq<Seq<char>> {
    list.map_values(|s: String| s@)
}

/// Collects the characters of `s`.
pub fn chars_of(s: &str) -> (r: Vec<char>)
    ensures
        r@ == s@,
{
    let mut r: Vec<char> = Vec::new();
    for c in it: s.chars()
        invariant
            r@ == it.seq().take(it.index()),
            it.seq() == s@,
    {
        r.push(c);
    }
    r
}

/// `part` stands in `s` from position `at` on.
pub open spec fn stands_at(s: Seq<char>, at: int, part: Seq<char>) -> bool {
    &&& 0 <= at
    &&& at + part.len() <= s.len()
    &&& s.subrange(at, at + part.len()) == part
}

/// `part` stands somewhere in `s`.
pub open spec fn contains_text(s: Seq<char>, part: Seq<char>) -> bool {
    exists|at: int| stands_at(s, at, part)
}

/// Tells whether `part` stands in `s` from position `at` on.
fn is_at(s: &Vec<char>, at: usize, part: &Vec<char>) -> (r: bool)
    ensures
        r == stands_at(s@, at as int, part@),
{
    if at > s.len() || part.len() > s.len() - at {
        return false;
    }
    let mut i: usize = 0;
    while i < part.len()
        invariant
            at + part.len() <= s.len(),
            i <= part@.len(),
            forall|k: int| 0 <= k < i ==> s@[at + k] == part@[k],
        decreases part@.len() - i,
    {
        if s[at + i] != part[i] {
            assert(s@.subrange(at as int, at + part@.len())[i as int] != part@[i as int]);
            return false;
        }
        i = i + 1;
    }
    assert(s@.subrange(at as int, at + part@.len()) =~= part@);
    true
}

/// Tells whether two texts are the same.
pub fn is_same(a: &str, b: &str) -> (r: bool)
    ensures
        r == (a@ == b@),
{
    let x = chars_of(a);
    let y = chars_of(b);
    if x.len() != y.len() {
        return false;
    }
    let r = is_at(&x, 0, &y);
    assert(x@.subrange(0, x@.len() as int) =~= x@);
    r
}

/// Tells whether `s` starts with `part`.
pub fn starts_with(s: &Vec<char>, part: &str) -> (r: bool)
    ensures
        r == part@.is_prefix_of(s@),
{
    let p = chars_of(part);
    is_at(s, 0, &p)
}

/// Tells whether `s` ends with `part`.
pub fn ends_with(s: &Vec<char>, part: &str) -> (r: bool)
    ensures
        r == part@.is_suffix_of(s@),
{
    let p = chars_of(part);
    if p.len() > s.len() {
        return false;
    }
    is_at(s, s.len() - p.len(), &p)
}

/// Tells whether `part` stands somewhere in `s`.
pub fn contains(s: &Vec<char>, part: &str) -> (r: bool)
    ensures
        r == contains_text(s@, part@),
{
    let p = chars_of(part);
    if p.len() > s.len() {
        return false;
    }
    let last: usize = s.len() - p.len();
    let mut at: usize = 0;
    loop
        invariant
            at <= last,
            last == s@.len() - p@.len(),
            p@ == part@,
            forall|k: int| 0 <= k < at ==> !stands_at(s@, k, p@),
        decreases last - at,
    {
        if is_at(s, at, &p) {
            return true;
        }
        if at == last {
            return false;
        }
        at = at + 1;
    }
}

/// The order of texts: by the first character in which they differ, a prefix first.
pub open spec fn text_le(a: Seq<char>, b: Seq<char>) -> bool
    decreases a.len(),
{
    if a.len() == 0 {
        true
    } else if b.len() == 0 {
        false
    } else if a[0] != b[0] {
        a[0] < b[0]
    } else {
        text_le(a.drop_first(), b.drop_first())
    }
}

/// Of two texts one is at most the other.
pub proof fn text_le_total(a: Seq<char>, b: Seq<char>)
    ensures
        text_le(a, b) || text_le(b, a),
    decreases a.len(),
{
    if a.len() > 0 && b.len() > 0 && a[0] == b[0] {
        text_le_total(a.drop_first(), b.drop_first());
    }
}

/// The order of texts is transitive.
pub proof fn text_le_transitive(a: Seq<char>, b: Seq<char>, c: Seq<char>)
    requires
        text_le(a, b),
        text_le(b, c),
    ensures
        text_le(a, c),
    decreases a.len(),
{
    if a.len() > 0 && a[0] == b[0] && b[0] == c[0] {
        text_le_transitive(a.drop_first(), b.drop_first(), c.drop_first());
    }
}

/// Two texts, each of which is at most the other, are the same.
pub proof fn text_le_antisymmetric(a: Seq<char>, b: Seq<char>)
    requires
        text_le(a, b),
        text_le(b, a),
    ensures
        a == b,
    decreases a.len(),
{
    if a.len() > 0 {
        text_le_antisymmetric(a.drop_first(), b.drop_first());
        assert(a =~= seq![a[0]] + a.drop_first());
        assert(b =~= seq![b[0]] + b.drop_first());
    } else {
        assert(a =~= b);
    }
}

/// Tells whether `a` comes before `b` or is the same.
pub fn is_text_le(a: &str, b: &str) -> (r: bool)
    ensures
        r == text_le(a@, b@),
{
    let mut x = a.chars();
    let mut y = b.chars();
    let ghost mut i: int = 0;
    loop
        invariant
            0 <= i <= a@.len(),
            i <= b@.len(),
            vstd::std_specs::iter::IteratorSpec::remaining(&x) == a@.skip(i),
            vstd::std_specs::iter::IteratorSpec::remaining(&y) == b@.skip(i),
            text_le(a@, b@) == text_le(a@.skip(i), b@.skip(i)),
        decreases a@.len() - i,
    {
        match x.next() {
            None => {
                return true;
            },
            Some(c) => match y.next() {
                None => {
                    return false;
                },
                Some(d) => {
                    if c != d {
                        return c < d;
                    }
                    proof {
                        assert(a@.skip(i).drop_first() =~= a@.skip(i + 1));
                        assert(b@.skip(i).drop_first() =~= b@.skip(i + 1));
                        i = i + 1;
                    }
                },
            },
        }
    }
}

/// How often a line feed stands in `s`.
pub open spec fn line_feeds(s: Seq<char>) -> nat
    decreases s.len(),
{
    if s.len() == 0 {
        0
    } else {
        line_feeds(s.drop_last()) + if s.last() == '\n' { 1nat } else { 0nat }
    }
}

/// The number of lines of `s`: a line feed ends a line, and what follows the last
/// line feed is a line unless it is empty.
pub open spec fn line_count(s: Seq<char>) -> nat {
    line_feeds(s) + if s.len() > 0 && s.last() != '\n' { 1nat } else { 0nat }
}

/// A text has at most as many lines as characters.
pub proof fn line_count_is_bounded(s: Seq<char>)
    ensures
        line_count(s) <= s.len(),
    decreases s.len(),
{
    if s.len() > 0 {
        line_count_is_bounded(s.drop_last());
    }
}

/// Counts the lines of `s`.
pub fn count_lines(s: &str) -> (r: usize)
    ensures
        r == line_count(s@),
{
    let length: usize = s.unicode_len();
    let mut feeds: usize = 0;
    let mut open = false;
    for c in it: s.chars()
        invariant
            it.seq() == s@,
            length == s@.len(),
            0 <= it.index() <= s@.len(),
            feeds == line_feeds(s@.take(it.index())),
            feeds + if open { 1int } else { 0int } == line_count(s@.take(it.index())),
            open == (it.index() > 0 && s@[it.index() - 1] != '\n'),
            feeds <= it.index(),
    {
        assert(s@.take(it.index() + 1).drop_last() =~= s@.take(it.index()));
        if c == '\n' {
            feeds = feeds + 1;
            open = false;
        } else {
            open = true;
        }
    }
    assert(s@.take(s@.len() as int) =~= s@);
    proof {
        line_count_is_bounded(s@);
    }
    if open {
        feeds + 1
    } else {
        feeds
    }
}

/// The digit `d`.
pub open spec fn digit(d: nat) -> char {
    ('0' as u8 + d) as char
}

/// `n` in decimal digits.
pub open spec fn decimal(n: nat) -> Seq<char>
    decreases n,
{
    if n < 10 {
        seq![digit(n)]
    } else {
        decimal(n / 10).push(digit(n % 10))
    }
}

/// The digit `d` as text.
fn digit_text(d: usize) -> (r: &'static str)
    requires
        d < 10,
    ensures
        r@ == seq![digit(d as nat)],
{
    proof {
        reveal_strlit("0");
        reveal_strlit("1");
        reveal_strlit("2");
        reveal_strlit("3");
        reveal_strlit("4");
        reveal_strlit("5");
        reveal_strlit("6");
        reveal_strlit("7");
        reveal_strlit("8");
        reveal_strlit("9");
    }
    match d {
        0 => "0",
        1 => "1",
        2 => "2",
        3 => "3",
        4 => "4",
        5 => "5",
        6 => "6",
        7 => "7",
        8 => "8",
        _ => "9",
    }
}

/// Writes `n` in decimal digits.
pub fn to_decimal(n: usize) -> (r: String)
    ensures
        r@ == decimal(n as nat),
    decreases n,
{
    let mut r = if n < 10 {
        String::new()
    } else {
        to_decimal(n / 10)
    };
    r.append(digit_text(n % 10));
    r
}

/// The parts, one after the other, with `between` between each two of them.
pub open spec fn joined(parts: Seq<Seq<char>>, between: Seq<char>) -> Seq<char>
    decreases parts.len(),
{
    if parts.len() == 0 {
        Seq::empty()
    } else if parts.len() == 1 {
        parts[0]
    } else {
        joined(parts.drop_last(), between) + between + parts.last()
    }
}

/// Joins `parts`, with `between` between each two of them.
pub fn join(parts: &Vec<String>, between: &str) -> (r: String)
    ensures
        r@ == joined(texts(parts@), between@),
{
    let mut r = String::new();
    for i in 0..parts.len()
        invariant
            r@ == joined(texts(parts@).take(i as int), between@),
    {
        assert(texts(parts@).take(i + 1).drop_last() =~= texts(parts@).take(i as int));
        if i > 0 {
            r.append(between);
        }
        r.append(parts[i].as_str());
    }
    assert(texts(parts@).take(parts@.len() as int) =~= texts(parts@));
    r
}

/// `n` spaces.
pub open spec fn spaces(n: nat) -> Seq<char> {
    Seq::new(n, |i: int| ' ')
}

/// `s`, with spaces behind it up to a length of `width`.
pub open spec fn padded(s: Seq<char>, width: nat) -> Seq<char> {
    if s.len() < width {
        s + spaces((width - s.len()) as nat)
    } else {
        s
    }
}

/// Puts spaces behind `s` up to a length of `width` characters.
pub fn pad(s: &str, width: usize) -> (r: String)
    ensures
        r@ == padded(s@, width as nat),
{
    let mut r = s.to_owned();
    let mut length: usize = s.unicode_len();
    proof {
        reveal_strlit(" ");
    }
    assert(s@ =~= s@ + spaces(0));
    while length < width
        invariant
            s@.len() <= length,
            length <= width || length == s@.len(),
            r@ == s@ + spaces((length - s@.len()) as nat),
            " "@ == seq![' '],
        decreases width - length,
    {
        r.append(" ");
        length = length + 1;
        assert(r@ =~= s@ + spaces((length - s@.len()) as nat));
    }
    r
}

/// `c`, in lower case where it is an ASCII letter.
pub open spec fn lower(c: char) -> char {
    if 'A' <= c && c <= 'Z' {
        (c as u8 + 32) as char
    } else {
        c
    }
}

/// `a` and `b` differ at most in the case of ASCII letters.
pub open spec fn same_but_case(a: Seq<char>, b: Seq<char>) -> bool {
    a.map_values(|c: char| lower(c)) == b.map_values(|c: char| lower(c))
}

/// Puts an ASCII letter in lower case.
fn to_lower(c: char) -> (r: char)
    ensures
        r == lower(c),
{
    if 'A' <= c && c <= 'Z' {
        (c as u8 + 32) as char
    } else {
        c
    }
}

/// Tells whether `a` and `b` differ at most in the case of ASCII letters.
pub fn is_same_but_case(a: &str, b: &str) -> (r: bool)
    ensures
        r == same_but_case(a@, b@),
{
    let x = chars_of(a);
    let y = chars_of(b);
    let ghost lower_a = a@.map_values(|c: char| lower(c));
    let ghost lower_b = b@.map_values(|c: char| lower(c));
    if x.len() != y.len() {
        assert(lower_a.len() != lower_b.len());
        return false;
    }
    for i in 0..x.len()
        invariant
            x@ == a@,
            y@ == b@,
            x@.len() == y@.len(),
            lower_a == a@.map_values(|c: char| lower(c)),
            lower_b == b@.map_values(|c: char| lower(c)),
            forall|k: int| 0 <= k < i ==> lower_a[k] == lower_b[k],
    {
        if to_lower(x[i]) != to_lower(y[i]) {
            assert(lower_a[i as int] != lower_b[i as int]);
            return false;
        }
    }
    assert(lower_a =~= lower_b);
    true
}

/// Tells whether `s` is one of `list`.
pub fn is_listed(list: &Vec<String>, s: &String) -> (r: bool)
    ensures
        r == texts(list@).contains(s@),
{
    for i in 0..list.len()
        invariant
            forall|k: int| 0 <= k < i ==> texts(list@)[k] != s@,
    {
        if list[i] == *s {
            assert(texts(list@)[i as int] == s@);
            return true;
        }
    }
    false
}

/// Copies a list of strings.
pub fn copy_texts(list: &Vec<String>) -> (r: Vec<String>)
    ensures
        texts(r@) == texts(list@),
{
    let mut r: Vec<String> = Vec::new();
    for i in 0..list.len()
        invariant
            texts(r@) == texts(list@).take(i as int),
    {
        let ghost before = r@;
        r.push(list[i].clone());
        assert(texts(r@) =~= texts(before).push(list@[i as int]@));
    }
    assert(texts(list@).take(list@.len() as int) =~= texts(list@));
    r
}

/// A list of strings is seen as the characters of each string, in its order.
pub proof fn texts_hold_each_string(list: Seq<String>)
    ensures
        texts(list).len() == list.len(),
        forall|i: int| 0 <= i < list.len() ==> #[trigger] texts(list)[i] == list[i]@,
{
}

/// A text stands in another exactly where the other is made up of something, the text,
/// and something.
pub proof fn contained_text_stands_between(s: Seq<char>, part: Seq<char>)
    ensures
        contains_text(s, part) <==> exists|before: Seq<char>, after: Seq<char>|
            s == #[trigger] (before + part + after),
{
    if contains_text(s, part) {
        let at = choose|at: int| stands_at(s, at, part);
        let before = s.take(at);
        let after = s.skip(at + part.len());
        assert(s.subrange(at, at + part.len()) =~= part);
        assert forall|i: int| 0 <= i < part.len() implies s[at + i] == part[i] by {
            assert(s.subrange(at, at + part.len())[i] == part[i]);
        }
        assert(s =~= before + part + after);
    }
    if exists|before: Seq<char>, after: Seq<char>| s == #[trigger] (before + part + after) {
        let (before, after) = choose|before: Seq<char>, after: Seq<char>|
            s == #[trigger] (before + part + after);
        let at = before.len() as int;
        assert(s.subrange(at, at + part.len()) =~= part);
        assert(stands_at(s, at, part));
    }
}

/// Texts are ordered by the first character in which they differ, and a text comes before
/// what it is the start of.
pub proof fn texts_are_ordered_by_first_difference(
    common: Seq<char>,
    x: char,
    y: char,
    a: Seq<char>,
    b: Seq<char>,
)
    requires
        x < y,
    ensures
        text_le(common + seq![x] + a, common + seq![y] + b),
        !text_le(common + seq![y] + b, common + seq![x] + a),
        text_le(common, common + a),
        text_le(common + a, common) <==> a.len() == 0,
    decreases common.len(),
{
    let s = common + seq![x] + a;
    let t = common + seq![y] + b;
    let u = common + a;
    if common.len() == 0 {
        assert(s[0] == x && t[0] == y);
        assert(u =~= a);
    } else {
        let rest = common.drop_first();
        texts_are_ordered_by_first_difference(rest, x, y, a, b);
        assert(s[0] == common[0] && t[0] == common[0] && u[0] == common[0]);
        assert(s.drop_first() =~= rest + seq![x] + a);
        assert(t.drop_first() =~= rest + seq![y] + b);
        assert(u.drop_first() =~= rest + a);
    }
}

proof fn line_feeds_add_up(a: Seq<char>, b: Seq<char>)
    ensures
        line_feeds(a + b) == line_feeds(a) + line_feeds(b),
    decreases b.len(),
{
    if b.len() == 0 {
        assert(a + b =~= a);
    } else {
        line_feeds_add_up(a, b.drop_last());
        assert((a + b).drop_last() =~= a + b.drop_last());
    }
}

proof fn no_line_feeds(line: Seq<char>)
    requires
        !line.contains('\n'),
    ensures
        line_feeds(line) == 0,
    decreases line.len(),
{
    if line.len() > 0 {
        assert(line.contains(line[line.len() - 1]));
        assert forall|i: int| 0 <= i < line.len() - 1 implies #[trigger] line.drop_last()[i]
            != '\n' by {
            assert(line.contains(line[i]));
        }
        no_line_feeds(line.drop_last());
    }
}

/// A line feed ends a line; what stands without one is a line unless it is empty.
pub proof fn line_feed_ends_a_line(line: Seq<char>, rest: Seq<char>)
    requires
        !line.contains('\n'),
    ensures
        line_count(line + seq!['\n'] + rest) == 1 + line_count(rest),
        line_count(line) == if line.len() == 0 {
            0nat
        } else {
            1nat
        },
{
    let front = line + seq!['\n'];
    no_line_feeds(line);
    assert(front.drop_last() =~= line);
    line_feeds_add_up(front, rest);
    if rest.len() == 0 {
        assert((front + rest).last() == '\n');
    } else {
        assert((front + rest).last() == rest.last());
    }
    if line.len() > 0 {
        assert(line.contains(line[line.len() - 1]));
    }
}

/// A number is written digit by digit: a digit is one character, counted from `0`, and
/// the last digit of a longer number stands behind the others.
pub proof fn decimal_is_positional(n: nat, d: nat)
    requires
        d < 10,
    ensures
        decimal(d).len() == 1,
        decimal(d)[0] as int == '0' as int + d,
        n > 0 ==> decimal(10 * n + d) == decimal(n) + decimal(d),
{
    if n > 0 {
        assert((10 * n + d) / 10 == n && (10 * n + d) % 10 == d);
        assert(decimal(10 * n + d) =~= decimal(n) + decimal(d));
    }
}

/// Parts are joined with what stands between them, once between each two.
pub proof fn joined_parts_are_separated(
    a: Seq<Seq<char>>,
    b: Seq<Seq<char>>,
    part: Seq<char>,
    between: Seq<char>,
)
    ensures
        joined(Seq::empty(), between) == Seq::<char>::empty(),
        joined(seq![part], between) == part,
        a.len() > 0 && b.len() > 0 ==> joined(a + b, between) == joined(a, between) + between
            + joined(b, between),
    decreases b.len(),
{
    if a.len() > 0 && b.len() > 0 {
        assert((a + b).drop_last() =~= a + b.drop_last());
        if b.len() == 1 {
            assert(a + b.drop_last() =~= a);
        } else {
            joined_parts_are_separated(a, b.drop_last(), part, between);
        }
        assert(joined(a + b, between) =~= joined(a, between) + between + joined(b, between));
    }
}

/// Padding keeps a text, reaches the width, and adds nothing but spaces.
pub proof fn padding_is_spaces(s: Seq<char>, width: nat)
    ensures
        s.is_prefix_of(padded(s, width)),
        padded(s, width).len() == if s.len() < width {
            width
        } else {
            s.len()
        },
        forall|i: int| s.len() <= i < padded(s, width).len() ==> #[trigger] padded(s, width)[i]
            == ' ',
{
    assert(padded(s, width).subrange(0, s.len() as int) =~= s);
}

/// Two texts are the same but for case exactly where they are as long, and each two
/// characters are the same or the two cases of one ASCII letter.
pub proof fn case_is_that_of_letters(a: Seq<char>, b: Seq<char>)
    ensures
        same_but_case(a, b) <==> a.len() == b.len() && forall|i: int|
            0 <= i < a.len() ==> {
                ||| #[trigger] a[i] == b[i]
                ||| 'A' <= a[i] && a[i] <= 'Z' && b[i] as int == a[i] as int + 32
                ||| 'A' <= b[i] && b[i] <= 'Z' && a[i] as int == b[i] as int + 32
            },
{
    let x = a.map_values(|c: char| lower(c));
    let y = b.map_values(|c: char| lower(c));
    if same_but_case(a, b) {
        assert(x.len() == a.len() && y.len() == b.len());
        assert forall|i: int| 0 <= i < a.len() implies {
            ||| #[trigger] a[i] == b[i]
            ||| 'A' <= a[i] && a[i] <= 'Z' && b[i] as int == a[i] as int + 32
            ||| 'A' <= b[i] && b[i] <= 'Z' && a[i] as int == b[i] as int + 32
        } by {
            assert(x[i] == y[i]);
            assert(lower(a[i]) == lower(b[i]));
        }
    }
    if a.len() == b.len() && forall|i: int|
        0 <= i < a.len() ==> {
            ||| #[trigger] a[i] == b[i]
            ||| 'A' <= a[i] && a[i] <= 'Z' && b[i] as int == a[i] as int + 32
            ||| 'A' <= b[i] && b[i] <= 'Z' && a[i] as int == b[i] as int + 32
        } {
        assert forall|i: int| 0 <= i < a.len() implies x[i] == y[i] by {
            let c = a[i];
            let d = b[i];
            assert(lower(c) == lower(d));
        }
        assert(x =~= y);
    }
}

} // verus!
