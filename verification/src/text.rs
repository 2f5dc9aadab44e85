//! Text as a sequence of characters: searching, joining, ordering, numbers.

use vstd::prelude::*;

verus! {

/// Appends one character: `String::push`.
pub assume_specification[ String::push ](s: &mut String, c: char)
    ensures
        final(s)@ == old(s)@.push(c),
;

/// The texts that a list of strings holds.
pub open spec fn texts(list: Seq<String>) -> Seq<Seq<char>> {
    list.map_values(|s: String| s@)
}

/// The text that an optional text holds.
pub open spec fn optional(t: Option<&str>) -> Option<Seq<char>> {
    match t {
        Some(s) => Some(s@),
        None => None,
    }
}

/// The text that `t` holds, if any.
pub open spec fn held(t: Option<String>) -> Option<Seq<char>> {
    match t {
        Some(s) => Some(s@),
        None => None,
    }
}

/// `s` ends with `tail`.
pub open spec fn ends_with(s: Seq<char>, tail: Seq<char>) -> bool {
    tail.len() <= s.len() && s.skip(s.len() - tail.len()) == tail
}

/// `s` begins with `head`.
pub open spec fn starts_with(s: Seq<char>, head: Seq<char>) -> bool {
    head.len() <= s.len() && s.take(head.len() as int) == head
}

/// `part` stands somewhere in `s`.
pub open spec fn has_part(s: Seq<char>, part: Seq<char>) -> bool {
    exists|i: int| 0 <= i <= s.len() && starts_with(#[trigger] s.skip(i), part)
}

/// The texts of `list` one after the other, with `sep` between neighbours.
pub open spec fn join(list: Seq<Seq<char>>, sep: Seq<char>) -> Seq<char>
    decreases list.len(),
{
    if list.len() == 0 {
        seq![]
    } else if list.len() == 1 {
        list[0]
    } else {
        join(list.drop_last(), sep) + sep + list.last()
    }
}

/// What `f` makes of each character of `s`, one after the other.
pub open spec fn replaced(s: Seq<char>, f: spec_fn(char) -> Seq<char>) -> Seq<char>
    decreases s.len(),
{
    if s.len() == 0 {
        seq![]
    } else {
        replaced(s.drop_last(), f) + f(s.last())
    }
}

/// Character by character, `a` comes before `b`.
pub open spec fn precedes(a: Seq<char>, b: Seq<char>) -> bool
    decreases a.len(),
{
    if b.len() == 0 {
        false
    } else if a.len() == 0 {
        true
    } else if a[0] != b[0] {
        a[0] < b[0]
    } else {
        precedes(a.drop_first(), b.drop_first())
    }
}

/// The decimal digit `d`.
pub open spec fn digit(d: nat) -> char {
    (48 + d) as char
}

/// `n` in decimal.
pub open spec fn nat_text(n: nat) -> Seq<char>
    decreases n,
{
    if n < 10 {
        seq![digit(n)]
    } else {
        nat_text(n / 10).push(digit(n % 10))
    }
}

/// `i` in decimal, with a minus sign where it is negative.
pub open spec fn int_text(i: int) -> Seq<char> {
    if i < 0 {
        seq!['-'] + nat_text((-i) as nat)
    } else {
        nat_text(i as nat)
    }
}

/// `c` with an ASCII capital letter replaced by its small one.
pub open spec fn lower_ascii(c: char) -> char {
    if 'A' <= c && c <= 'Z' {
        (c as int + 32) as char
    } else {
        c
    }
}

/// `a` and `b` differ at most in the case of ASCII letters.
pub open spec fn same_ignoring_case(a: Seq<char>, b: Seq<char>) -> bool {
    a.len() == b.len() && forall|i: int|
        0 <= i < a.len() ==> lower_ascii(#[trigger] a[i]) == lower_ascii(b[i])
}

/// The characters of `s`.
pub fn chars_of(s: &str) -> (r: Vec<char>)
    ensures
        r@ == s@,
{
    let mut r: Vec<char> = Vec::new();
    for c in it: s.chars()
        invariant
            r@ == it.seq().take(it.index() as int),
            it.seq() == s@,
    {
        r.push(c);
    }
    r
}

/// The text made of `chars`.
#[verifier::loop_isolation(false)]
pub fn text_of(chars: &Vec<char>) -> (r: String)
    ensures
        r@ == chars@,
{
    let mut r = String::new();
    for i in 0..chars.len()
        invariant
            r@ == chars@.take(i as int),
    {
        r.push(chars[i]);
        assert(chars@.take(i + 1) == chars@.take(i as int).push(chars@[i as int]));
    }
    assert(chars@.take(chars@.len() as int) == chars@);
    r
}

/// Whether `a` and `b` hold the same characters.
pub fn same(a: &str, b: &str) -> (r: bool)
    ensures
        r == (a@ == b@),
{
    a.to_owned() == b.to_owned()
}

/// Whether `name` is one of `list`.
#[verifier::loop_isolation(false)]
pub fn listed(list: &Vec<String>, name: &str) -> (r: bool)
    ensures
        r == texts(list@).contains(name@),
{
    for i in 0..list.len()
        invariant
            forall|j: int| 0 <= j < i ==> list@[j]@ != name@,
    {
        if same(list[i].as_str(), name) {
            assert(texts(list@)[i as int] == name@);
            return true;
        }
    }
    false
}

/// Whether `part` stands in `s` from position `at` on.
#[verifier::loop_isolation(false)]
fn part_at(s: &Vec<char>, at: usize, part: &Vec<char>) -> (r: bool)
    requires
        at <= s@.len(),
    ensures
        r == starts_with(s@.skip(at as int), part@),
{
    if part.len() > s.len() - at {
        return false;
    }
    for i in 0..part.len()
        invariant
            at + part@.len() <= s@.len(),
            forall|j: int| 0 <= j < i ==> s@[at + j] == part@[j],
    {
        if s[at + i] != part[i] {
            assert(s@.skip(at as int).take(part@.len() as int)[i as int] != part@[i as int]);
            return false;
        }
    }
    assert(s@.skip(at as int).take(part@.len() as int) == part@);
    true
}

/// Whether `s` ends with `tail`.
pub fn is_suffix(s: &Vec<char>, tail: &str) -> (r: bool)
    ensures
        r == ends_with(s@, tail@),
{
    let tail = chars_of(tail);
    if tail.len() > s.len() {
        return false;
    }
    let at: usize = s.len() - tail.len();
    assert(s@.skip(at as int).take(tail@.len() as int) == s@.skip(at as int));
    part_at(s, at, &tail)
}

/// Whether `part` stands somewhere in `s`.
#[verifier::loop_isolation(false)]
pub fn is_part(s: &Vec<char>, part: &str) -> (r: bool)
    ensures
        r == has_part(s@, part@),
{
    let part = chars_of(part);
    for i in 0..s.len()
        invariant
            forall|j: int| 0 <= j < i ==> !starts_with(#[trigger] s@.skip(j), part@),
    {
        if part_at(s, i, &part) {
            return true;
        }
    }
    part_at(s, s.len(), &part)
}

/// The texts of `list` joined with `sep`.
#[verifier::loop_isolation(false)]
pub fn joined(list: &Vec<String>, sep: &str) -> (r: String)
    ensures
        r@ == join(texts(list@), sep@),
{
    let mut r = String::new();
    for i in 0..list.len()
        invariant
            r@ == join(texts(list@).take(i as int), sep@),
    {
        let ghost before = texts(list@).take(i as int);
        let ghost after = texts(list@).take(i + 1);
        assert(after.drop_last() == before);
        assert(after.last() == list@[i as int]@);
        if i > 0 {
            r.append(sep);
        }
        r.append(list[i].as_str());
        assert(r@ == join(after, sep@));
    }
    assert(texts(list@).take(list@.len() as int) == texts(list@));
    r
}

/// The two orders of two texts decide between them, unless they are equal.
pub proof fn lemma_precedes_total(a: Seq<char>, b: Seq<char>)
    ensures
        precedes(a, b) || precedes(b, a) || a == b,
        !(precedes(a, b) && precedes(b, a)),
        a == b ==> !precedes(a, b),
    decreases a.len(),
{
    if a.len() > 0 && b.len() > 0 && a[0] == b[0] {
        lemma_precedes_total(a.drop_first(), b.drop_first());
        assert(a == seq![a[0]] + a.drop_first());
        assert(b == seq![b[0]] + b.drop_first());
    } else if a.len() == 0 && b.len() == 0 {
        assert(a == b);
    }
}

/// The order of texts is transitive.
pub proof fn lemma_precedes_transitive(a: Seq<char>, b: Seq<char>, c: Seq<char>)
    requires
        precedes(a, b),
        precedes(b, c),
    ensures
        precedes(a, c),
    decreases a.len(),
{
    if a.len() > 0 && b.len() > 0 && c.len() > 0 && a[0] == b[0] && b[0] == c[0] {
        lemma_precedes_transitive(a.drop_first(), b.drop_first(), c.drop_first());
    }
}

/// Whether `a` comes before `b`.
#[verifier::loop_isolation(false)]
pub fn before(a: &str, b: &str) -> (r: bool)
    ensures
        r == precedes(a@, b@),
{
    let x = chars_of(a);
    let y = chars_of(b);
    let mut i: usize = 0;
    assert(x@.skip(0) == x@);
    assert(y@.skip(0) == y@);
    while i < x.len() && i < y.len()
        invariant
            i <= x@.len(),
            i <= y@.len(),
            precedes(x@, y@) == precedes(x@.skip(i as int), y@.skip(i as int)),
        decreases x@.len() - i,
    {
        if x[i] != y[i] {
            return x[i] < y[i];
        }
        assert(x@.skip(i as int).drop_first() == x@.skip(i + 1));
        assert(y@.skip(i as int).drop_first() == y@.skip(i + 1));
        i += 1;
    }
    i < y.len()
}

/// `n` in decimal.
pub fn nat_to_text(n: u64) -> (r: String)
    ensures
        r@ == nat_text(n as nat),
    decreases n,
{
    let last: u8 = 48 + (n % 10) as u8;
    let mut r = if n < 10 { String::new() } else { nat_to_text(n / 10) };
    r.push(last as char);
    r
}

/// `i` in decimal.
pub fn int_to_text(i: i64) -> (r: String)
    ensures
        r@ == int_text(i as int),
{
    if i < 0 {
        let mut r = String::from_str("-");
        proof {
            reveal_strlit("-");
        }
        let size: u64 = (-(i as i128)) as u64;
        r.append(nat_to_text(size).as_str());
        r
    } else {
        nat_to_text(i as u64)
    }
}

/// `c` with an ASCII capital letter replaced by its small one.
fn lowered(c: char) -> (r: char)
    ensures
        r == lower_ascii(c),
{
    if 'A' <= c && c <= 'Z' {
        let code: u8 = c as u8;
        (code + 32) as char
    } else {
        c
    }
}

/// Whether `a` and `b` differ at most in the case of ASCII letters.
#[verifier::loop_isolation(false)]
pub fn alike(a: &str, b: &str) -> (r: bool)
    ensures
        r == same_ignoring_case(a@, b@),
{
    let x = chars_of(a);
    let y = chars_of(b);
    if x.len() != y.len() {
        return false;
    }
    for i in 0..x.len()
        invariant
            x@.len() == y@.len(),
            forall|j: int| 0 <= j < i ==> lower_ascii(#[trigger] x@[j]) == lower_ascii(y@[j]),
    {
        if lowered(x[i]) != lowered(y[i]) {
            return false;
        }
    }
    true
}

/// The texts of `list` ascend, each once.
pub open spec fn ascending(list: Seq<Seq<char>>) -> bool {
    forall|i: int, j: int| 0 <= i < j < list.len() ==> precedes(#[trigger] list[i], #[trigger] list[j])
}

/// Puts `name` into an ascending list, unless it is there, and says whether it
/// was put.
#[verifier::loop_isolation(false)]
pub fn insert_ascending(list: &mut Vec<String>, name: String) -> (r: bool)
    requires
        ascending(texts(old(list)@)),
    ensures
        ascending(texts(final(list)@)),
        texts(final(list)@).to_set() == texts(old(list)@).to_set().insert(name@),
        r == !texts(old(list)@).contains(name@),
{
    let ghost all = texts(list@);
    let mut i: usize = 0;
    while i < list.len() && before(list[i].as_str(), name.as_str())
        invariant
            list@ == old(list)@,
            i <= list@.len(),
            forall|k: int| 0 <= k < i ==> precedes(#[trigger] all[k], name@),
        decreases list@.len() - i,
    {
        assert(all[i as int] == list@[i as int]@);
        i += 1;
    }
    if i < list.len() && same(list[i].as_str(), name.as_str()) {
        assert(all[i as int] == name@);
        assert(all.to_set().insert(name@) =~= all.to_set());
        return false;
    }
    list.insert(i, name);
    let ghost after = texts(list@);
    proof {
        assert(after == all.insert(i as int, name@));
        assert forall|k: int| i <= k < all.len() implies precedes(name@, #[trigger] all[k]) by {
            assert(all[i as int] == old(list)@[i as int]@);
            lemma_precedes_total(all[i as int], name@);
            if k > i {
                lemma_precedes_transitive(name@, all[i as int], all[k]);
            }
        }
        assert forall|k: int| 0 <= k < all.len() implies #[trigger] all[k] != name@ by {
            lemma_precedes_total(all[k], name@);
        }
        assert forall|k: int, m: int| 0 <= k < m < after.len() implies precedes(
            #[trigger] after[k],
            #[trigger] after[m],
        ) by {
            let from_k: int = if k < i { k } else { k - 1 };
            let from_m: int = if m < i { m } else { m - 1 };
            if k != i {
                assert(after[k] == all[from_k]);
            }
            if m != i {
                assert(after[m] == all[from_m]);
            }
        }
        assert forall|t: Seq<char>| after.contains(t) <==> (all.contains(t) || t == name@) by {
            if after.contains(t) && t != name@ {
                let k = choose|k: int| 0 <= k < after.len() && after[k] == t;
                let from: int = if k < i { k } else { k - 1 };
                assert(all[from] == t);
            }
            if all.contains(t) {
                let k = choose|k: int| 0 <= k < all.len() && all[k] == t;
                let there: int = if k < i { k } else { k + 1 };
                assert(after[there] == t);
            }
            if t == name@ {
                assert(after[i as int] == t);
            }
        }
        assert(after.to_set() =~= all.to_set().insert(name@));
    }
    true
}

/// Two ascending lists of the same texts are equal.
pub proof fn law_ascending_unique(a: Seq<Seq<char>>, b: Seq<Seq<char>>)
    requires
        ascending(a),
        ascending(b),
        a.to_set() == b.to_set(),
    ensures
        a == b,
    decreases a.len(),
{
    if a.len() == 0 {
        if b.len() > 0 {
            assert(b.to_set().contains(b[0]));
            assert(a.contains(b[0]));
        }
        assert(a == b);
    } else {
        assert(a.to_set().contains(a.last()));
        assert(b.contains(a.last()));
        let k = choose|k: int| 0 <= k < b.len() && b[k] == a.last();
        assert(b.to_set().contains(b.last()));
        assert(a.contains(b.last()));
        let m = choose|m: int| 0 <= m < a.len() && a[m] == b.last();
        lemma_precedes_total(a.last(), b.last());
        assert(a.last() == b.last());
        let x = a.drop_last();
        let y = b.drop_last();
        assert forall|t: Seq<char>| x.contains(t) <==> y.contains(t) by {
            if x.contains(t) {
                let i = choose|i: int| 0 <= i < x.len() && x[i] == t;
                assert(precedes(a[i], a[a.len() - 1]));
                lemma_precedes_total(t, a.last());
                assert(a.to_set().contains(a[i]));
                assert(b.contains(t));
                let j = choose|j: int| 0 <= j < b.len() && b[j] == t;
                assert(y[j] == t);
            }
            if y.contains(t) {
                let i = choose|i: int| 0 <= i < y.len() && y[i] == t;
                assert(precedes(b[i], b[b.len() - 1]));
                lemma_precedes_total(t, b.last());
                assert(b.to_set().contains(b[i]));
                assert(a.contains(t));
                let j = choose|j: int| 0 <= j < a.len() && a[j] == t;
                assert(x[j] == t);
            }
        }
        assert(x.to_set() =~= y.to_set());
        assert forall|i: int, j: int| 0 <= i < j < x.len() implies precedes(#[trigger] x[i], #[trigger] x[j]) by {
            assert(precedes(a[i], a[j]));
        }
        assert forall|i: int, j: int| 0 <= i < j < y.len() implies precedes(#[trigger] y[i], #[trigger] y[j]) by {
            assert(precedes(b[i], b[j]));
        }
        law_ascending_unique(x, y);
        assert(a == x.push(a.last()));
        assert(b == y.push(b.last()));
    }
}

/// `c` is white space: it has the Unicode property `White_Space`.
pub open spec fn white_space(c: char) -> bool {
    ||| '\u{9}' <= c <= '\u{d}'
    ||| c == ' '
    ||| c == '\u{85}'
    ||| c == '\u{a0}'
    ||| c == '\u{1680}'
    ||| '\u{2000}' <= c <= '\u{200a}'
    ||| c == '\u{2028}'
    ||| c == '\u{2029}'
    ||| c == '\u{202f}'
    ||| c == '\u{205f}'
    ||| c == '\u{3000}'
}

/// Whether `c` is white space.
pub fn is_white(c: char) -> (r: bool)
    ensures
        r == white_space(c),
{
    ('\u{9}' <= c && c <= '\u{d}') || c == ' ' || c == '\u{85}' || c == '\u{a0}' || c
        == '\u{1680}' || ('\u{2000}' <= c && c <= '\u{200a}') || c == '\u{2028}' || c
        == '\u{2029}' || c == '\u{202f}' || c == '\u{205f}' || c == '\u{3000}'
}

/// Every character of `s` is white space.
pub open spec fn all_white(s: Seq<char>) -> bool {
    forall|i: int| 0 <= i < s.len() ==> white_space(#[trigger] s[i])
}

/// `s` from its first character on that is no white space.
pub open spec fn trimmed_start(s: Seq<char>) -> Seq<char>
    decreases s.len(),
{
    if s.len() > 0 && white_space(s[0]) {
        trimmed_start(s.drop_first())
    } else {
        s
    }
}

/// `s` without the white space at its two ends.
pub open spec fn trimmed(s: Seq<char>) -> Seq<char>
    decreases s.len(),
{
    if s.len() > 0 && white_space(s.last()) {
        trimmed(s.drop_last())
    } else {
        trimmed_start(s)
    }
}

/// `s` without the white space in front.
#[verifier::loop_isolation(false)]
pub fn trim_front(s: &str) -> (r: String)
    ensures
        r@ == trimmed_start(s@),
{
    let chars = chars_of(s);
    let mut i: usize = 0;
    assert(s@.skip(0) == s@);
    while i < chars.len() && is_white(chars[i])
        invariant
            i <= chars@.len(),
            trimmed_start(s@) == trimmed_start(s@.skip(i as int)),
        decreases chars@.len() - i,
    {
        assert(s@.skip(i as int)[0] == s@[i as int]);
        assert(s@.skip(i as int).drop_first() == s@.skip(i + 1));
        i += 1;
    }
    let mut rest: Vec<char> = Vec::new();
    for k in i..chars.len()
        invariant
            rest@ == s@.subrange(i as int, k as int),
    {
        rest.push(chars[k]);
    }
    assert(rest@ == s@.skip(i as int));
    text_of(&rest)
}

/// `s` without the white space at its two ends.
#[verifier::loop_isolation(false)]
pub fn trim(s: &str) -> (r: String)
    ensures
        r@ == trimmed(s@),
{
    let mut chars = chars_of(s);
    while chars.len() > 0 && is_white(chars[chars.len() - 1])
        invariant
            trimmed(s@) == trimmed(chars@),
        decreases chars@.len(),
    {
        let ghost before = chars@;
        let _ = chars.pop();
        assert(chars@ == before.drop_last());
    }
    let rest = text_of(&chars);
    trim_front(rest.as_str())
}

/// White space in front of a text that starts with none is all that is taken
/// from its front.
proof fn lemma_trimmed_start(before: Seq<char>, s: Seq<char>)
    requires
        all_white(before),
        s.len() > 0 ==> !white_space(s[0]),
    ensures
        trimmed_start(before + s) == s,
    decreases before.len(),
{
    let whole = before + s;
    if before.len() > 0 {
        assert(whole[0] == before[0]);
        let rest = before.drop_first();
        assert forall|i: int| 0 <= i < rest.len() implies white_space(#[trigger] rest[i]) by {
            assert(rest[i] == before[i + 1]);
        }
        lemma_trimmed_start(rest, s);
        assert(whole.drop_first() == rest + s);
    } else {
        assert(whole == s);
    }
}

/// Trimming the front takes the white space there and nothing else.
pub proof fn law_trimmed_start(before: Seq<char>, s: Seq<char>)
    requires
        all_white(before),
        s.len() > 0 ==> !white_space(s[0]),
    ensures
        trimmed_start(before + s) == s,
{
    lemma_trimmed_start(before, s);
}

/// Trimming takes the white space from the two ends of a text and nothing else.
pub proof fn law_trimmed(before: Seq<char>, s: Seq<char>, after: Seq<char>)
    requires
        all_white(before),
        all_white(after),
        s.len() > 0 ==> !white_space(s[0]) && !white_space(s.last()),
    ensures
        trimmed(before + s + after) == s,
    decreases before.len() + after.len(),
{
    let whole = before + s + after;
    if after.len() > 0 {
        assert(whole.last() == after.last());
        let rest = after.drop_last();
        assert forall|i: int| 0 <= i < rest.len() implies white_space(#[trigger] rest[i]) by {
            assert(rest[i] == after[i]);
        }
        law_trimmed(before, s, rest);
        assert(whole.drop_last() == before + s + rest);
    } else if s.len() > 0 {
        assert(whole == before + s);
        assert(whole.last() == s.last());
        lemma_trimmed_start(before, s);
    } else if before.len() > 0 {
        assert(whole == before);
        assert(whole.last() == before.last());
        let rest = before.drop_last();
        assert forall|i: int| 0 <= i < rest.len() implies white_space(#[trigger] rest[i]) by {
            assert(rest[i] == before[i]);
        }
        law_trimmed(rest, s, after);
        assert(whole.drop_last() == rest + s + after);
    } else {
        assert(whole == s);
    }
}

/// `c` is a decimal digit.
pub open spec fn is_digit(c: char) -> bool {
    '0' <= c && c <= '9'
}

/// The number that the digits `s` write, `None` where `s` holds another
/// character.
pub open spec fn digits_value(s: Seq<char>) -> Option<nat>
    decreases s.len(),
{
    if s.len() == 0 {
        Some(0)
    } else {
        match digits_value(s.drop_last()) {
            Some(n) if is_digit(s.last()) => Some(n * 10 + (s.last() as nat - 48) as nat),
            _ => None,
        }
    }
}

/// The number that `s` writes in decimal, perhaps behind a plus sign.
pub open spec fn decimal_value(s: Seq<char>) -> Option<nat> {
    let digits = if s.len() > 0 && s[0] == '+' {
        s.drop_first()
    } else {
        s
    };
    if digits.len() == 0 {
        None
    } else {
        digits_value(digits)
    }
}

/// A number does not shrink as digits are added.
proof fn lemma_digits_grow(s: Seq<char>, i: int)
    requires
        0 <= i <= s.len(),
    ensures
        digits_value(s) is Some ==> digits_value(s.take(i)) is Some && digits_value(s.take(i))->0
            <= digits_value(s)->0,
    decreases s.len(),
{
    if i < s.len() {
        lemma_digits_grow(s.drop_last(), i);
        assert(s.drop_last().take(i) == s.take(i));
    } else {
        assert(s.take(i) == s);
    }
}

/// Reads a port: a decimal number that fits 16 bits.
#[verifier::loop_isolation(false)]
pub fn read_port(s: &str) -> (r: Option<u16>)
    ensures
        match r {
            Some(p) => decimal_value(s@) == Some(p as nat),
            None => decimal_value(s@) is None || decimal_value(s@)->0 > u16::MAX,
        },
{
    let chars = chars_of(s);
    let start: usize = if chars.len() > 0 && chars[0] == '+' { 1 } else { 0 };
    let ghost digits = s@.skip(start as int);
    assert(start == 1 ==> digits == s@.drop_first());
    assert(start == 0 ==> digits == s@);
    if chars.len() == start {
        return None;
    }
    let mut n: u32 = 0;
    for i in start..chars.len()
        invariant
            n <= u16::MAX,
            digits_value(digits.take(i - start)) == Some(n as nat),
    {
        let c = chars[i];
        assert(digits.take(i - start + 1).drop_last() == digits.take(i - start));
        assert(digits.take(i - start + 1).last() == c);
        proof {
            lemma_digits_grow(digits, i - start + 1);
        }
        if !('0' <= c && c <= '9') {
            return None;
        }
        n = n * 10 + (c as u32 - 48);
        if n > u16::MAX as u32 {
            return None;
        }
    }
    assert(digits.take(chars@.len() - start) == digits);
    Some(n as u16)
}


/// The place of the first `c` in `s`; its length where there is none.
pub open spec fn place_of(s: Seq<char>, c: char) -> int
    decreases s.len(),
{
    if s.len() == 0 || s[0] == c {
        0
    } else {
        1 + place_of(s.drop_first(), c)
    }
}

/// Before place `k` there is no `c`, and at it there is one, or the text ends.
pub proof fn lemma_place_of(s: Seq<char>, c: char, k: int)
    requires
        0 <= k <= s.len(),
        forall|i: int| 0 <= i < k ==> s[i] != c,
        k < s.len() ==> s[k] == c,
    ensures
        place_of(s, c) == k,
    decreases k,
{
    if k > 0 {
        assert(s[0] != c);
        assert forall|i: int| 0 <= i < k - 1 implies s.drop_first()[i] != c by {
            assert(s[i + 1] != c);
        }
        lemma_place_of(s.drop_first(), c, k - 1);
    }
}

/// The place of the first `c` in `s`; its length where there is none.
#[verifier::loop_isolation(false)]
pub fn find_char(s: &Vec<char>, c: char) -> (r: usize)
    ensures
        r == place_of(s@, c),
        r <= s@.len(),
        forall|i: int| 0 <= i < r ==> s@[i] != c,
        r < s@.len() ==> s@[r as int] == c,
{
    for i in 0..s.len()
        invariant
            forall|k: int| 0 <= k < i ==> s@[k] != c,
    {
        if s[i] == c {
            proof {
                lemma_place_of(s@, c, i as int);
            }
            return i;
        }
    }
    proof {
        lemma_place_of(s@, c, s@.len() as int);
    }
    s.len()
}

/// The texts between the `sep`s of `s`.
pub open spec fn pieces(s: Seq<char>, sep: char) -> Seq<Seq<char>>
    decreases s.len(),
{
    if s.len() == 0 {
        seq![seq![]]
    } else {
        let rest = pieces(s.drop_last(), sep);
        if s.last() == sep {
            rest.push(seq![])
        } else {
            rest.drop_last().push(rest.last().push(s.last()))
        }
    }
}

/// The texts between the `sep`s of `s`.
#[verifier::loop_isolation(false)]
pub fn pieces_of(s: &Vec<char>, sep: char) -> (r: Vec<String>)
    ensures
        texts(r@) == pieces(s@, sep),
{
    let mut done: Vec<String> = Vec::new();
    let mut current = String::new();
    assert(texts(done@).push(current@) == pieces(s@.take(0), sep));
    for i in 0..s.len()
        invariant
            texts(done@).push(current@) == pieces(s@.take(i as int), sep),
    {
        let c = s[i];
        let ghost before = texts(done@);
        assert(s@.take(i + 1).drop_last() == s@.take(i as int));
        assert(before.push(current@).drop_last() == before);
        if c == sep {
            let ghost last = current@;
            done.push(current);
            assert(texts(done@) == before.push(last));
            current = String::new();
            assert(current@ == Seq::<char>::empty());
        } else {
            current.push(c);
        }
    }
    assert(s@.take(s@.len() as int) == s@);
    let ghost before = texts(done@);
    let ghost last = current@;
    done.push(current);
    assert(texts(done@) == before.push(last));
    done
}

/// There is at least one piece, and none holds what parts them.
pub proof fn lemma_pieces(s: Seq<char>, sep: char)
    ensures
        pieces(s, sep).len() > 0,
        forall|i: int| 0 <= i < pieces(s, sep).len() ==> !(#[trigger] pieces(s, sep)[i]).contains(sep),
    decreases s.len(),
{
    if s.len() > 0 {
        lemma_pieces(s.drop_last(), sep);
        let rest = pieces(s.drop_last(), sep);
        let all = pieces(s, sep);
        assert forall|i: int| 0 <= i < all.len() implies !(#[trigger] all[i]).contains(sep) by {
            if i < rest.len() - 1 || (i < rest.len() && s.last() == sep) {
                assert(all[i] == rest[i]);
            } else if s.last() != sep {
                assert(!rest[i].contains(sep));
                if all[i].contains(sep) {
                    let k = choose|k: int| 0 <= k < all[i].len() && all[i][k] == sep;
                    assert(rest[i][k] == sep);
                }
            }
        }
    }
}

/// Text without a `sep` behind a `sep` is a piece of its own.
proof fn lemma_pieces_added(s: Seq<char>, sep: char, piece: Seq<char>)
    requires
        !piece.contains(sep),
    ensures
        pieces(s + seq![sep] + piece, sep) == pieces(s, sep).push(piece),
    decreases piece.len(),
{
    let whole = s + seq![sep] + piece;
    if piece.len() == 0 {
        assert(whole.drop_last() == s);
        assert(piece == Seq::<char>::empty());
    } else {
        let shorter = piece.drop_last();
        assert(whole.drop_last() == s + seq![sep] + shorter);
        assert(whole.last() == piece.last());
        assert(piece.contains(piece.last()));
        assert forall|c: char| shorter.contains(c) implies piece.contains(c) by {
            let k = choose|k: int| 0 <= k < shorter.len() && shorter[k] == c;
            assert(piece[k] == c);
        }
        lemma_pieces_added(s, sep, shorter);
        assert(shorter.push(piece.last()) == piece);
    }
}

/// Text without a `sep` is one piece.
proof fn lemma_one_piece(s: Seq<char>, sep: char)
    requires
        !s.contains(sep),
    ensures
        pieces(s, sep) == seq![s],
    decreases s.len(),
{
    if s.len() > 0 {
        let shorter = s.drop_last();
        assert(s.contains(s.last()));
        assert forall|c: char| shorter.contains(c) implies s.contains(c) by {
            let k = choose|k: int| 0 <= k < shorter.len() && shorter[k] == c;
            assert(s[k] == c);
        }
        lemma_one_piece(shorter, sep);
        assert(shorter.push(s.last()) == s);
    } else {
        assert(s == Seq::<char>::empty());
    }
}

/// Texts that were joined by what none of them holds come apart again.
pub proof fn law_join_then_pieces(list: Seq<Seq<char>>, sep: char)
    requires
        list.len() > 0,
        forall|i: int| 0 <= i < list.len() ==> !(#[trigger] list[i]).contains(sep),
    ensures
        pieces(join(list, seq![sep]), sep) == list,
    decreases list.len(),
{
    if list.len() == 1 {
        lemma_one_piece(list[0], sep);
    } else {
        law_join_then_pieces(list.drop_last(), sep);
        lemma_pieces_added(join(list.drop_last(), seq![sep]), sep, list.last());
        assert(list.drop_last().push(list.last()) == list);
    }
}

/// Whether `s` begins with `head`.
pub fn is_prefix(s: &str, head: &str) -> (r: bool)
    ensures
        r == starts_with(s@, head@),
{
    let chars = chars_of(s);
    assert(s@.skip(0) == s@);
    part_at(&chars, 0, &chars_of(head))
}

/// Joined texts are those of a first part, what goes between, and those of the
/// rest; a single text is itself.
pub proof fn law_join(a: Seq<Seq<char>>, b: Seq<Seq<char>>, sep: Seq<char>, one: Seq<char>)
    ensures
        join(Seq::<Seq<char>>::empty(), sep) == Seq::<char>::empty(),
        join(seq![one], sep) == one,
        a.len() > 0 && b.len() > 0 ==> join(a + b, sep) == join(a, sep) + sep + join(b, sep),
    decreases b.len(),
{
    if a.len() > 0 && b.len() > 0 {
        let whole = a + b;
        assert(whole.drop_last() == a + b.drop_last());
        assert(whole.last() == b.last());
        if b.len() == 1 {
            assert(a + b.drop_last() == a);
        } else {
            law_join(a, b.drop_last(), sep, one);
        }
    }
}

/// Characters are replaced one by one, each without regard to the others.
pub proof fn law_replaced(a: Seq<char>, b: Seq<char>, f: spec_fn(char) -> Seq<char>, c: char)
    ensures
        replaced(a + b, f) == replaced(a, f) + replaced(b, f),
        replaced(seq![c], f) == f(c),
        replaced(seq![], f) == Seq::<char>::empty(),
    decreases b.len(),
{
    if b.len() == 0 {
        assert(a + b == a);
    } else {
        law_replaced(a, b.drop_last(), f, c);
        assert((a + b).drop_last() == a + b.drop_last());
        assert((a + b).last() == b.last());
    }
    assert(seq![c].drop_last() == Seq::<char>::empty());
    assert(replaced(seq![c].drop_last(), f) == Seq::<char>::empty());
}

/// `a` and `b` agree up to place `k`, and there `a` ends or has the smaller
/// character.
pub open spec fn parts_at(a: Seq<char>, b: Seq<char>, k: int) -> bool {
    &&& 0 <= k <= a.len()
    &&& k < b.len()
    &&& forall|i: int| 0 <= i < k ==> a[i] == b[i]
    &&& k == a.len() || (a[k] as int) < (b[k] as int)
}

/// One text comes before another exactly where, at the first place at which they
/// differ, it has ended or has the smaller character.
pub proof fn law_precedes(a: Seq<char>, b: Seq<char>)
    ensures
        precedes(a, b) <==> exists|k: int| parts_at(a, b, k),
    decreases a.len(),
{
    if b.len() == 0 {
    } else if a.len() == 0 {
        assert(parts_at(a, b, 0));
    } else if a[0] != b[0] {
        if a[0] < b[0] {
            assert(parts_at(a, b, 0));
        }
    } else {
        let x = a.drop_first();
        let y = b.drop_first();
        law_precedes(x, y);
        if precedes(x, y) {
            let k = choose|k: int| parts_at(x, y, k);
            assert forall|i: int| 0 <= i < k + 1 implies a[i] == b[i] by {
                if i > 0 {
                    assert(x[i - 1] == y[i - 1]);
                }
            }
            assert(parts_at(a, b, k + 1));
        }
        if exists|k: int| parts_at(a, b, k) {
            let k = choose|k: int| parts_at(a, b, k);
            assert(k > 0);
            assert forall|i: int| 0 <= i < k - 1 implies x[i] == y[i] by {
                assert(a[i + 1] == b[i + 1]);
            }
            assert(parts_at(x, y, k - 1));
        }
    }
}

/// What digits write: each counts ten times as much as the one behind it, and
/// nothing but digits writes a number.
pub proof fn law_digits(s: Seq<char>, c: char)
    ensures
        digits_value(seq![]) == Some(0nat),
        '0' <= c <= '9' ==> (digits_value(s.push(c)) == match digits_value(s) {
            Some(n) => Some((10 * n + (c as int - '0' as int)) as nat),
            None => None,
        }),
        digits_value(s) is Some <==> forall|i: int|
            0 <= i < s.len() ==> '0' <= #[trigger] s[i] <= '9',
    decreases s.len(),
{
    assert(s.push(c).drop_last() == s);
    if s.len() > 0 {
        let rest = s.drop_last();
        law_digits(rest, c);
        if digits_value(s) is Some {
            assert forall|i: int| 0 <= i < s.len() implies '0' <= #[trigger] s[i] <= '9' by {
                if i < rest.len() {
                    assert(s[i] == rest[i]);
                }
            }
        }
        if forall|i: int| 0 <= i < s.len() ==> '0' <= #[trigger] s[i] <= '9' {
            assert forall|i: int| 0 <= i < rest.len() implies '0' <= #[trigger] rest[i] <= '9' by {
                assert(rest[i] == s[i]);
            }
            assert('0' <= s[s.len() - 1] <= '9');
        }
    }
}

/// A number in decimal reads back as itself, and does not begin with a zero
/// unless it is one.
pub proof fn law_nat_text(n: nat)
    ensures
        digits_value(nat_text(n)) == Some(n),
        nat_text(n).len() > 0,
        n > 0 ==> nat_text(n)[0] != '0',
        n < 10 ==> nat_text(n).len() == 1,
    decreases n,
{
    if n < 10 {
        assert(nat_text(n).drop_last() == Seq::<char>::empty());
        assert(digits_value(nat_text(n).drop_last()) == Some(0nat));
    } else {
        law_nat_text(n / 10);
        let front = nat_text(n / 10);
        assert(nat_text(n) == front.push(digit(n % 10)));
        assert(nat_text(n).drop_last() == front);
        assert(nat_text(n)[0] == front[0]);
    }
}

/// An integer in decimal reads back as itself, behind a minus sign where it is
/// negative.
pub proof fn law_int_text(i: int)
    ensures
        i >= 0 ==> digits_value(int_text(i)) == Some(i as nat),
        i < 0 ==> int_text(i)[0] == '-' && digits_value(int_text(i).drop_first()) == Some(
            (-i) as nat,
        ),
        int_text(i).len() > 0,
        i > 0 ==> int_text(i)[0] != '0',
        i < 0 ==> int_text(i)[1] != '0',
{
    if i < 0 {
        law_nat_text((-i) as nat);
        assert(int_text(i).drop_first() == nat_text((-i) as nat));
    } else {
        law_nat_text(i as nat);
    }
}

/// A decimal number may stand behind one plus sign, and has a digit.
pub proof fn law_decimal(s: Seq<char>)
    ensures
        s.len() > 0 && s[0] != '+' ==> decimal_value(s) == digits_value(s),
        s.len() > 0 && s[0] != '+' ==> decimal_value(seq!['+'] + s) == digits_value(s),
        decimal_value(seq![]) is None,
        decimal_value(seq!['+']) is None,
{
    assert((seq!['+'] + s).drop_first() == s);
}

/// Two texts are alike exactly where each character is the same in both, or is a
/// capital letter in one and its small letter in the other.
pub proof fn law_alike(a: Seq<char>, b: Seq<char>)
    ensures
        same_ignoring_case(a, b) <==> a.len() == b.len() && forall|i: int|
            0 <= i < a.len() ==> (#[trigger] a[i] == b[i] || ('A' <= a[i] <= 'Z' && b[i] as int
                == a[i] as int + 32) || ('A' <= b[i] <= 'Z' && a[i] as int == b[i] as int + 32)),
{
    if same_ignoring_case(a, b) {
        assert forall|i: int| 0 <= i < a.len() implies (#[trigger] a[i] == b[i] || ('A' <= a[i]
            <= 'Z' && b[i] as int == a[i] as int + 32) || ('A' <= b[i] <= 'Z' && a[i] as int
            == b[i] as int + 32)) by {
            assert(lower_ascii(a[i]) == lower_ascii(b[i]));
        }
    }
    if a.len() == b.len() && forall|i: int|
        0 <= i < a.len() ==> (#[trigger] a[i] == b[i] || ('A' <= a[i] <= 'Z' && b[i] as int
            == a[i] as int + 32) || ('A' <= b[i] <= 'Z' && a[i] as int == b[i] as int + 32)) {
        assert forall|i: int| 0 <= i < a.len() implies lower_ascii(#[trigger] a[i]) == lower_ascii(
            b[i],
        ) by {
            assert(a[i] == b[i] || ('A' <= a[i] <= 'Z' && b[i] as int == a[i] as int + 32) || ('A'
                <= b[i] <= 'Z' && a[i] as int == b[i] as int + 32));
        }
    }
}

/// A text begins with its front, ends with its back, and holds what stands
/// between them; and what it begins or ends with is its front or back.
pub proof fn law_parts(a: Seq<char>, b: Seq<char>, c: Seq<char>)
    ensures
        starts_with(a + b, a),
        ends_with(a + b, b),
        has_part(a + b + c, b),
        starts_with(c, a) ==> exists|rest: Seq<char>| c == #[trigger] (a + rest),
        ends_with(c, b) ==> exists|rest: Seq<char>| c == #[trigger] (rest + b),
        has_part(c, b) ==> exists|x: Seq<char>, y: Seq<char>| c == #[trigger] (x + b + y),
{
    assert((a + b).take(a.len() as int) == a);
    assert((a + b).skip(a.len() as int) == b);
    let whole = a + b + c;
    assert(whole.skip(a.len() as int) == b + c);
    assert((b + c).take(b.len() as int) == b);
    assert(starts_with(whole.skip(a.len() as int), b));
    if starts_with(c, a) {
        assert(c == a + c.skip(a.len() as int));
    }
    if ends_with(c, b) {
        assert(c == c.take(c.len() - b.len()) + b);
    }
    if has_part(c, b) {
        let i = choose|i: int| 0 <= i <= c.len() && starts_with(#[trigger] c.skip(i), b);
        let rest = c.skip(i);
        assert(rest == b + rest.skip(b.len() as int));
        assert(c == c.take(i) + b + rest.skip(b.len() as int));
    }
}

/// The pieces of a text, joined again, are the text.
pub proof fn law_pieces_then_join(s: Seq<char>, sep: char)
    ensures
        join(pieces(s, sep), seq![sep]) == s,
    decreases s.len(),
{
    lemma_pieces(s, sep);
    if s.len() == 0 {
        assert(s == Seq::<char>::empty());
    } else {
        let rest = pieces(s.drop_last(), sep);
        law_pieces_then_join(s.drop_last(), sep);
        lemma_pieces(s.drop_last(), sep);
        let all = pieces(s, sep);
        if s.last() == sep {
            assert(all.drop_last() == rest);
            assert(join(all, seq![sep]) == join(rest, seq![sep]) + seq![sep] + Seq::<char>::empty());
        } else {
            assert(all.drop_last() == rest.drop_last());
            if rest.len() == 1 {
                assert(join(rest, seq![sep]) == rest[0]);
                assert(all[0] == rest[0].push(s.last()));
            } else {
                assert(join(all, seq![sep]) == join(rest.drop_last(), seq![sep]) + seq![sep]
                    + rest.last().push(s.last()));
            }
        }
        assert(s == s.drop_last().push(s.last()));
    }
}

/// The texts of a list are those of its strings in their places.
pub proof fn law_texts(list: Seq<String>, i: int)
    ensures
        texts(list).len() == list.len(),
        0 <= i < list.len() ==> texts(list)[i] == list[i]@,
{
}

/// In a list that ascends, each text comes before all that stand behind it.
pub proof fn law_ascending(list: Seq<Seq<char>>, i: int, j: int)
    requires
        ascending(list),
        0 <= i < j < list.len(),
    ensures
        exists|k: int| parts_at(list[i], list[j], k),
{
    law_precedes(list[i], list[j]);
}

}
