//! Character-level text operations, each stated over sequences of characters.

use vstd::prelude::*;
#[allow(unused_imports)]
use vstd::string::StringExecFns;
#[allow(unused_imports)]
use vstd::utf8::is_ascii_chars;

verus! {

/// `String::push` appends one character.
pub assume_specification[ String::push ](s: &mut String, c: char)
    ensures
        final(s)@ == old(s)@.push(c),
;

/// The characters of each string in a sequence of strings.
pub open spec fn texts(v: Seq<String>) -> Seq<Seq<char>> {
    v.map_values(|s: String| s@)
}

/// The characters of an optional string.
pub open spec fn opt_text(o: Option<String>) -> Option<Seq<char>> {
    match o {
        Some(s) => Some(s@),
        None => None,
    }
}

/// The characters of `s`, one per element.
pub fn chars_of(s: &str) -> (r: Vec<char>)
    ensures
        r@ == s@,
{
    let mut out: Vec<char> = Vec::new();
    for c in it: s.chars()
        invariant
            out@ == it.seq().take(it.index() as int),
            it.seq() == s@,
    {
        out.push(c);
    }
    out
}

/// The string made of the characters `v[from..to]`.
pub fn string_of(v: &Vec<char>, from: usize, to: usize) -> (r: String)
    requires
        from <= to <= v@.len(),
    ensures
        r@ == v@.subrange(from as int, to as int),
{
    let mut out = String::new();
    let mut i: usize = from;
    while i < to
        invariant
            from <= i <= to <= v@.len(),
            out@ == v@.subrange(from as int, i as int),
        decreases to - i,
    {
        out.push(v[i]);
        i += 1;
        assert(out@ =~= v@.subrange(from as int, i as int));
    }
    out
}

/// Whether two strings hold the same characters.
pub fn same(a: &str, b: &str) -> (r: bool)
    ensures
        r == (a@ == b@),
{
    let x = chars_of(a);
    let y = chars_of(b);
    if x.len() != y.len() {
        return false;
    }
    let mut i: usize = 0;
    while i < x.len()
        invariant
            i <= x@.len(),
            x@.len() == y@.len(),
            x@.take(i as int) == y@.take(i as int),
            x@ == a@,
            y@ == b@,
        decreases x@.len() - i,
    {
        if x[i] != y[i] {
            return false;
        }
        i += 1;
        assert(x@.take(i as int) =~= y@.take(i as int));
    }
    assert(x@.take(i as int) =~= x@);
    assert(y@.take(i as int) =~= y@);
    true
}

/// The fields of `s` between occurrences of `sep`: reading one more character either
/// opens an empty field or lengthens the last one.
pub open spec fn split_on(s: Seq<char>, sep: char) -> Seq<Seq<char>>
    decreases s.len(),
{
    if s.len() == 0 {
        seq![Seq::<char>::empty()]
    } else {
        let fields = split_on(s.drop_last(), sep);
        if s.last() == sep {
            fields.push(Seq::<char>::empty())
        } else {
            fields.update(fields.len() - 1, fields.last().push(s.last()))
        }
    }
}

/// Splits `s` at every `sep`, keeping empty fields.
pub fn split(s: &str, sep: char) -> (r: Vec<String>)
    ensures
        texts(r@) == split_on(s@, sep),
{
    let cs = chars_of(s);
    let mut out: Vec<String> = Vec::new();
    let mut cur = String::new();
    let mut i: usize = 0;
    assert(texts(out@).push(cur@) =~= split_on(cs@.take(0), sep));
    while i < cs.len()
        invariant
            i <= cs@.len(),
            texts(out@).push(cur@) == split_on(cs@.take(i as int), sep),
        decreases cs@.len() - i,
    {
        let ghost before = texts(out@).push(cur@);
        assert(cs@.take(i + 1).drop_last() =~= cs@.take(i as int));
        assert(cs@.take(i + 1).last() == cs@[i as int]);
        if cs[i] == sep {
            let ghost done = out@;
            out.push(cur);
            cur = String::new();
            assert(texts(out@) =~= before);
            assert(texts(out@).push(cur@) == before.push(Seq::<char>::empty()));
        } else {
            let c: char = cs[i];
            cur.push(c);
            assert(texts(out@).push(cur@) =~= before.update(
                before.len() - 1,
                before.last().push(c),
            ));
        }
        i += 1;
    }
    assert(cs@.take(i as int) =~= s@);
    let ghost done = out@;
    let ghost tail = cur@;
    out.push(cur);
    assert(texts(out@) =~= texts(done).push(tail));
    out
}

/// Splitting always gives at least one field, and no field holds the separator.
pub proof fn lemma_split_fields(s: Seq<char>, sep: char)
    ensures
        split_on(s, sep).len() >= 1,
        forall|i: int| 0 <= i < split_on(s, sep).len() ==> !(#[trigger] split_on(s, sep)[i]).contains(sep),
    decreases s.len(),
{
    if s.len() > 0 {
        lemma_split_fields(s.drop_last(), sep);
        let fields = split_on(s.drop_last(), sep);
        if s.last() != sep {
            let longer = fields.last().push(s.last());
            assert(!longer.contains(sep)) by {
                if longer.contains(sep) {
                    let k = longer.index_of(sep);
                    assert(longer[k] == sep);
                    assert(k < fields.last().len());
                    assert(fields.last()[k] == sep);
                    assert(fields[fields.len() - 1].contains(sep));
                }
            }
        }
        assert forall|i: int| 0 <= i < split_on(s, sep).len() implies !(#[trigger] split_on(
            s,
            sep,
        )[i]).contains(sep) by {
            if i < fields.len() - 1 {
                assert(split_on(s, sep)[i] == fields[i]);
            } else if i < fields.len() && s.last() == sep {
                assert(split_on(s, sep)[i] == fields[i]);
            }
        }
    }
}

/// `parts` with `sep` between neighbours.
pub open spec fn join(parts: Seq<Seq<char>>, sep: Seq<char>) -> Seq<char>
    decreases parts.len(),
{
    if parts.len() == 0 {
        Seq::empty()
    } else if parts.len() == 1 {
        parts[0]
    } else {
        join(parts.drop_last(), sep) + sep + parts.last()
    }
}

/// Concatenates `parts`, writing `sep` between neighbours.
pub fn joined(parts: &Vec<String>, sep: &str) -> (r: String)
    ensures
        r@ == join(texts(parts@), sep@),
{
    let mut out = String::new();
    let ghost all = texts(parts@);
    if parts.len() == 0 {
        return out;
    }
    out.append(parts[0].as_str());
    let mut i: usize = 1;
    assert(out@ =~= join(all.take(1), sep@));
    while i < parts.len()
        invariant
            1 <= i <= parts@.len(),
            all == texts(parts@),
            out@ == join(all.take(i as int), sep@),
        decreases parts@.len() - i,
    {
        out.append(sep);
        out.append(parts[i].as_str());
        assert(all.take(i + 1).drop_last() =~= all.take(i as int));
        assert(all.take(i + 1).last() == parts@[i as int]@);
        i += 1;
    }
    assert(all.take(i as int) =~= all);
    out
}

/// The characters with Unicode's White_Space property.
pub open spec fn is_space(c: char) -> bool {
    let u = c as u32;
    ||| 0x09 <= u <= 0x0d
    ||| u == 0x20
    ||| u == 0x85
    ||| u == 0xa0
    ||| u == 0x1680
    ||| 0x2000 <= u <= 0x200a
    ||| u == 0x2028
    ||| u == 0x2029
    ||| u == 0x202f
    ||| u == 0x205f
    ||| u == 0x3000
}

/// Whether `c` is white space.
pub fn space(c: char) -> (r: bool)
    ensures
        r == is_space(c),
{
    let u: u32 = c as u32;
    (u >= 0x09 && u <= 0x0d) || u == 0x20 || u == 0x85 || u == 0xa0 || u == 0x1680 || (u >= 0x2000
        && u <= 0x200a) || u == 0x2028 || u == 0x2029 || u == 0x202f || u == 0x205f || u == 0x3000
}

/// `s` without its leading white space.
pub open spec fn trim_start(s: Seq<char>) -> Seq<char>
    decreases s.len(),
{
    if s.len() > 0 && is_space(s[0]) {
        trim_start(s.drop_first())
    } else {
        s
    }
}

/// `s` without its trailing white space.
pub open spec fn trim_end(s: Seq<char>) -> Seq<char>
    decreases s.len(),
{
    if s.len() > 0 && is_space(s.last()) {
        trim_end(s.drop_last())
    } else {
        s
    }
}

/// `s` without white space at either end.
pub open spec fn trim(s: Seq<char>) -> Seq<char> {
    trim_end(trim_start(s))
}

/// Removes white space from both ends of `s`.
pub fn trimmed(s: &str) -> (r: String)
    ensures
        r@ == trim(s@),
{
    let cs = chars_of(s);
    let mut from: usize = 0;
    assert(cs@.skip(0) =~= cs@);
    while from < cs.len() && space(cs[from])
        invariant
            from <= cs@.len(),
            trim_start(cs@.skip(from as int)) == trim_start(cs@),
        decreases cs@.len() - from,
    {
        assert(cs@.skip(from as int).drop_first() =~= cs@.skip(from + 1));
        from += 1;
    }
    let ghost rest = cs@.skip(from as int);
    assert(trim_start(cs@) == rest);
    let mut to: usize = cs.len();
    assert(rest.take(to - from) =~= rest);
    while to > from && space(cs[to - 1])
        invariant
            from <= to <= cs@.len(),
            rest == cs@.skip(from as int),
            trim_end(rest.take(to - from)) == trim_end(rest),
        decreases to,
    {
        assert(rest.take(to - from).drop_last() =~= rest.take(to - from - 1));
        to -= 1;
    }
    assert(cs@.subrange(from as int, to as int) =~= rest.take(to - from));
    string_of(&cs, from, to)
}

/// The character for a decimal digit.
pub open spec fn digit_char(d: int) -> char {
    (48 + d) as u8 as char
}

/// Whether `c` is an ASCII digit.
pub open spec fn is_digit(c: char) -> bool {
    '0' <= c <= '9'
}

/// The decimal numeral of `n`, without leading zeros.
pub open spec fn decimal(n: nat) -> Seq<char>
    decreases n,
{
    if n < 10 {
        seq![digit_char(n as int)]
    } else {
        decimal(n / 10).push(digit_char((n % 10) as int))
    }
}

/// Writes `n` in decimal.
pub fn number(n: u64) -> (r: String)
    ensures
        r@ == decimal(n as nat),
    decreases n,
{
    let last: char = (48u8 + (n % 10) as u8) as char;
    let mut out = if n < 10 {
        String::new()
    } else {
        number(n / 10)
    };
    out.push(last);
    proof {
        if n < 10 {
            assert(out@ =~= decimal(n as nat));
        }
    }
    out
}

/// `n` in decimal, with leading zeros up to two digits.
pub open spec fn decimal2(n: nat) -> Seq<char> {
    if n < 10 {
        seq!['0'] + decimal(n)
    } else {
        decimal(n)
    }
}

/// Writes `n` in at least two decimal digits.
pub fn number2(n: u64) -> (r: String)
    ensures
        r@ == decimal2(n as nat),
{
    if n < 10 {
        let mut out = String::new();
        out.push('0');
        let rest = number(n);
        out.append(rest.as_str());
        assert(out@ =~= decimal2(n as nat));
        out
    } else {
        number(n)
    }
}

/// A signed number in decimal, with a leading minus below zero.
pub open spec fn signed_decimal(n: int) -> Seq<char> {
    if n < 0 {
        seq!['-'] + decimal((-n) as nat)
    } else {
        decimal(n as nat)
    }
}

/// Writes `n` in decimal.
pub fn signed_number(n: i64) -> (r: String)
    ensures
        r@ == signed_decimal(n as int),
{
    if n < 0 {
        let mut out = String::new();
        out.push('-');
        let magnitude: u64 = if n == i64::MIN {
            0x8000_0000_0000_0000
        } else {
            (-n) as u64
        };
        let rest = number(magnitude);
        out.append(rest.as_str());
        assert(out@ =~= signed_decimal(n as int));
        out
    } else {
        number(n as u64)
    }
}

/// The number a run of digits stands for.
pub open spec fn digits_value(s: Seq<char>) -> nat
    decreases s.len(),
{
    if s.len() == 0 {
        0
    } else {
        digits_value(s.drop_last()) * 10 + (s.last() as nat - '0' as nat) as nat
    }
}

/// Whether every character is a digit.
pub open spec fn all_digits(s: Seq<char>) -> bool {
    forall|i: int| 0 <= i < s.len() ==> is_digit(#[trigger] s[i])
}

/// The value of an unsigned numeral: an optional plus sign, then only digits.
pub open spec fn unsigned_value(s: Seq<char>) -> Option<nat> {
    let body = if s.len() > 0 && s[0] == '+' {
        s.skip(1)
    } else {
        s
    };
    if body.len() > 0 && all_digits(body) {
        Some(digits_value(body))
    } else {
        None
    }
}

/// The value of an unsigned numeral that does not exceed `max`.
pub open spec fn bounded_value(s: Seq<char>, max: nat) -> Option<nat> {
    match unsigned_value(s) {
        Some(v) if v <= max => Some(v),
        _ => None,
    }
}

proof fn lemma_prefix_value(s: Seq<char>, k: int)
    requires
        0 <= k <= s.len(),
    ensures
        digits_value(s.take(k)) <= digits_value(s),
    decreases s.len() - k,
{
    if k < s.len() {
        lemma_prefix_value(s, k + 1);
        assert(s.take(k + 1).drop_last() =~= s.take(k));
    } else {
        assert(s.take(k) =~= s);
    }
}

/// Reads an unsigned numeral no greater than `max`.
pub fn parse_unsigned(s: &str, max: u64) -> (r: Option<u64>)
    ensures
        r is Some <==> bounded_value(s@, max as nat) is Some,
        r matches Some(v) ==> bounded_value(s@, max as nat) == Some(v as nat),
{
    let cs = chars_of(s);
    let from: usize = if cs.len() > 0 && cs[0] == '+' {
        1
    } else {
        0
    };
    let ghost body = cs@.skip(from as int);
    assert(cs@.skip(0) =~= cs@);
    if from == cs.len() {
        return None;
    }
    let mut i: usize = from;
    let mut v: u64 = 0;
    while i < cs.len()
        invariant
            from <= i <= cs@.len(),
            body == cs@.skip(from as int),
            body == (if s@.len() > 0 && s@[0] == '+' { s@.skip(1) } else { s@ }),
            cs@ == s@,
            all_digits(body.take(i - from)),
            v == digits_value(body.take(i - from)),
            v <= max,
        decreases cs@.len() - i,
    {
        let c: char = cs[i];
        assert(body[i - from] == c);
        if c < '0' || c > '9' {
            assert(!is_digit(body[i - from]));
            return None;
        }
        let d: u64 = (c as u32 - '0' as u32) as u64;
        assert(body.take(i - from + 1).drop_last() =~= body.take(i - from));
        assert(digits_value(body.take(i - from + 1)) == v * 10 + d);
        if v > max / 10 || d > max - v * 10 {
            proof {
                lemma_prefix_value(body, i - from + 1);
            }
            return None;
        }
        v = v * 10 + d;
        i += 1;
        assert forall|k: int| 0 <= k < i - from implies is_digit(#[trigger] body.take(i - from)[k]) by {
            if k < i - from - 1 {
                assert(body.take(i - from)[k] == body.take(i - from - 1)[k]);
            }
        }
    }
    assert(body.take(i - from) =~= body);
    Some(v)
}

/// A numeral reads back as the number it was written from.
pub proof fn lemma_decimal_reads_back(n: nat)
    ensures
        decimal(n).len() >= 1,
        all_digits(decimal(n)),
        digits_value(decimal(n)) == n,
        unsigned_value(decimal(n)) == Some(n),
    decreases n,
{
    if n < 10 {
        assert(decimal(n).drop_last() =~= Seq::<char>::empty());
        assert(digits_value(decimal(n).drop_last()) == 0);
    } else {
        lemma_decimal_reads_back(n / 10);
        assert(decimal(n).drop_last() =~= decimal(n / 10));
    }
    assert(is_digit(decimal(n)[0]));
    assert('+' != decimal(n)[0]);
}

/// Whether `part` stands in `s` from position `at`.
pub open spec fn occurs_at(s: Seq<char>, part: Seq<char>, at: int) -> bool {
    0 <= at && at + part.len() <= s.len() && s.subrange(at, at + part.len()) == part
}

/// Whether `part` stands anywhere in `s`.
pub open spec fn occurs(s: Seq<char>, part: Seq<char>) -> bool {
    exists|at: int| occurs_at(s, part, at)
}

fn found_at(s: &Vec<char>, part: &Vec<char>, at: usize) -> (r: bool)
    requires
        at <= s@.len(),
    ensures
        r == occurs_at(s@, part@, at as int),
{
    let n: usize = s.len();
    if part.len() > n - at {
        return false;
    }
    let mut i: usize = 0;
    while i < part.len()
        invariant
            i <= part@.len(),
            at + part@.len() <= s@.len(),
            n == s@.len(),
            forall|k: int| 0 <= k < i ==> s@[at + k] == part@[k],
        decreases part@.len() - i,
    {
        if s[at + i] != part[i] {
            assert(s@.subrange(at as int, at + part@.len())[i as int] != part@[i as int]);
            return false;
        }
        i += 1;
    }
    assert(s@.subrange(at as int, at + part@.len()) =~= part@);
    true
}

/// Whether `part` stands anywhere in `s`.
pub fn contains(s: &str, part: &str) -> (r: bool)
    ensures
        r == occurs(s@, part@),
{
    let a = chars_of(s);
    let b = chars_of(part);
    let mut at: usize = 0;
    loop
        invariant
            at <= a@.len(),
            a@ == s@,
            b@ == part@,
            forall|k: int| 0 <= k < at ==> !occurs_at(s@, part@, k),
        decreases a@.len() - at,
    {
        if found_at(&a, &b, at) {
            assert(occurs_at(s@, part@, at as int));
            return true;
        }
        if at == a.len() {
            assert(forall|k: int| !occurs_at(s@, part@, k));
            return false;
        }
        at += 1;
    }
}

/// Whether `s` begins with `part`.
pub fn starts_with(s: &str, part: &str) -> (r: bool)
    ensures
        r == occurs_at(s@, part@, 0),
{
    let a = chars_of(s);
    let b = chars_of(part);
    found_at(&a, &b, 0)
}

/// Whether `s` ends with `part`.
pub open spec fn is_suffix(s: Seq<char>, part: Seq<char>) -> bool {
    occurs_at(s, part, s.len() - part.len())
}

/// Whether `s` ends with `part`.
pub fn ends_with(s: &str, part: &str) -> (r: bool)
    ensures
        r == is_suffix(s@, part@),
{
    let a = chars_of(s);
    let b = chars_of(part);
    if b.len() > a.len() {
        false
    } else {
        found_at(&a, &b, a.len() - b.len())
    }
}

/// `s` without leading occurrences of `c`.
pub open spec fn strip_start(s: Seq<char>, c: char) -> Seq<char>
    decreases s.len(),
{
    if s.len() > 0 && s[0] == c {
        strip_start(s.drop_first(), c)
    } else {
        s
    }
}

/// `s` without trailing occurrences of `c`.
pub open spec fn strip_end(s: Seq<char>, c: char) -> Seq<char>
    decreases s.len(),
{
    if s.len() > 0 && s.last() == c {
        strip_end(s.drop_last(), c)
    } else {
        s
    }
}

/// Removes every `c` from both ends of `s`.
pub fn stripped(s: &str, c: char) -> (r: String)
    ensures
        r@ == strip_end(strip_start(s@, c), c),
{
    let cs = chars_of(s);
    let mut from: usize = 0;
    assert(cs@.skip(0) =~= cs@);
    while from < cs.len() && cs[from] == c
        invariant
            from <= cs@.len(),
            strip_start(cs@.skip(from as int), c) == strip_start(cs@, c),
        decreases cs@.len() - from,
    {
        assert(cs@.skip(from as int).drop_first() =~= cs@.skip(from + 1));
        from += 1;
    }
    let ghost rest = cs@.skip(from as int);
    assert(strip_start(cs@, c) == rest);
    let mut to: usize = cs.len();
    assert(rest.take(to - from) =~= rest);
    while to > from && cs[to - 1] == c
        invariant
            from <= to <= cs@.len(),
            rest == cs@.skip(from as int),
            strip_end(rest.take(to - from), c) == strip_end(rest, c),
        decreases to,
    {
        assert(rest.take(to - from).drop_last() =~= rest.take(to - from - 1));
        to -= 1;
    }
    assert(cs@.subrange(from as int, to as int) =~= rest.take(to - from));
    string_of(&cs, from, to)
}

/// The characters of each string slice in a sequence.
pub open spec fn words(v: Seq<&str>) -> Seq<Seq<char>> {
    v.map_values(|s: &str| s@)
}

/// Owned copies of a list of string slices.
pub fn owned(list: &[&str]) -> (r: Vec<String>)
    ensures
        texts(r@) == words(list@),
{
    let mut out: Vec<String> = Vec::new();
    let mut i: usize = 0;
    while i < list.len()
        invariant
            i <= list@.len(),
            texts(out@) == words(list@).take(i as int),
        decreases list@.len() - i,
    {
        let ghost before = out@;
        let s = list[i].to_owned();
        out.push(s);
        i += 1;
        assert(texts(out@) =~= texts(before).push(s@));
        assert(words(list@).take(i as int) =~= words(list@).take(i - 1).push(s@));
    }
    assert(words(list@).take(i as int) =~= words(list@));
    out
}

/// A copy of a list of strings.
pub fn copied(list: &Vec<String>) -> (r: Vec<String>)
    ensures
        r@ == list@,
{
    let mut out: Vec<String> = Vec::new();
    let mut i: usize = 0;
    while i < list.len()
        invariant
            i <= list@.len(),
            out@ == list@.take(i as int),
        decreases list@.len() - i,
    {
        out.push(list[i].clone());
        i += 1;
        assert(out@ =~= list@.take(i as int));
    }
    assert(list@.take(i as int) =~= list@);
    out
}

/// Whether `list` holds `key`.
pub fn listed(list: &Vec<String>, key: &str) -> (r: bool)
    ensures
        r == texts(list@).contains(key@),
{
    let mut i: usize = 0;
    while i < list.len()
        invariant
            i <= list@.len(),
            forall|k: int| 0 <= k < i ==> (#[trigger] list@[k])@ != key@,
        decreases list@.len() - i,
    {
        if same(list[i].as_str(), key) {
            assert(texts(list@)[i as int] == key@);
            return true;
        }
        i += 1;
    }
    assert(!texts(list@).contains(key@)) by {
        if texts(list@).contains(key@) {
            let k = texts(list@).index_of(key@);
            assert(texts(list@)[k] == list@[k]@);
        }
    }
    false
}

/// A line without the carriage return before its line feed.
pub open spec fn without_return(line: Seq<char>) -> Seq<char> {
    if line.len() > 0 && line.last() == '\r' {
        line.drop_last()
    } else {
        line
    }
}

/// The lines of a text. The last line feed is optional, and a carriage return before a line
/// feed belongs to it.
pub open spec fn text_lines(s: Seq<char>) -> Seq<Seq<char>> {
    let parts = split_on(s, '\n');
    let ended = parts.drop_last().map_values(|l: Seq<char>| without_return(l));
    if parts.last().len() == 0 {
        ended
    } else {
        ended.push(parts.last())
    }
}

fn drop_return(line: &str) -> (r: String)
    ensures
        r@ == without_return(line@),
{
    let cs = chars_of(line);
    if cs.len() > 0 && cs[cs.len() - 1] == '\r' {
        let r = string_of(&cs, 0, cs.len() - 1);
        assert(r@ =~= line@.drop_last());
        r
    } else {
        line.to_owned()
    }
}

/// The lines of a text.
pub fn lines(s: &str) -> (r: Vec<String>)
    ensures
        texts(r@) == text_lines(s@),
{
    let parts = split(s, '\n');
    let ghost all = texts(parts@);
    proof {
        lemma_split_fields(s@, '\n');
    }
    let n: usize = parts.len();
    let mut out: Vec<String> = Vec::new();
    let mut i: usize = 0;
    while i + 1 < n
        invariant
            n == parts@.len(),
            n >= 1,
            i < n,
            i == out@.len(),
            all == texts(parts@),
            forall|k: int| 0 <= k < i ==> (#[trigger] out@[k])@ == without_return(all[k]),
        decreases n - i,
    {
        assert(all[i as int] == parts@[i as int]@);
        let line = drop_return(parts[i].as_str());
        out.push(line);
        i += 1;
    }
    let ghost ended = all.drop_last().map_values(|l: Seq<char>| without_return(l));
    assert(texts(out@) =~= ended);
    assert(all.last() == parts@[n - 1]@);
    if !parts[n - 1].as_str().is_empty() {
        out.push(parts[n - 1].clone());
        assert(texts(out@) =~= ended.push(all.last()));
    }
    out
}

/// An ASCII letter in upper case; any other character as it is.
pub open spec fn upper_char(c: char) -> char {
    if 'a' <= c <= 'z' {
        ((c as u8) - 32) as u8 as char
    } else {
        c
    }
}

/// An ASCII letter in lower case; any other character as it is.
pub open spec fn lower_char(c: char) -> char {
    if 'A' <= c <= 'Z' {
        ((c as u8) + 32) as u8 as char
    } else {
        c
    }
}

/// `s` with its ASCII letters in upper case.
pub open spec fn ascii_upper(s: Seq<char>) -> Seq<char> {
    s.map_values(|c: char| upper_char(c))
}

/// `s` with its ASCII letters in lower case.
pub open spec fn ascii_lower(s: Seq<char>) -> Seq<char> {
    s.map_values(|c: char| lower_char(c))
}

/// Writes ASCII letters in upper case.
pub fn uppercased(s: &str) -> (r: String)
    ensures
        r@ == ascii_upper(s@),
{
    let cs = chars_of(s);
    let mut out = String::new();
    let mut i: usize = 0;
    while i < cs.len()
        invariant
            i <= cs@.len(),
            cs@ == s@,
            out@ == ascii_upper(s@).take(i as int),
        decreases cs@.len() - i,
    {
        let c: char = cs[i];
        let u: char = if c >= 'a' && c <= 'z' {
            (c as u8 - 32) as char
        } else {
            c
        };
        out.push(u);
        i += 1;
        assert(out@ =~= ascii_upper(s@).take(i as int));
    }
    assert(ascii_upper(s@).take(i as int) =~= ascii_upper(s@));
    out
}

/// Whether two texts are equal but for the case of ASCII letters.
pub fn same_ignoring_case(a: &str, b: &str) -> (r: bool)
    ensures
        r == (ascii_upper(a@) == ascii_upper(b@)),
{
    let x = uppercased(a);
    let y = uppercased(b);
    same(x.as_str(), y.as_str())
}

/// `s` in lower case by Unicode's rules.
pub uninterp spec fn lowercase_of(s: Seq<char>) -> Seq<char>;

/// `str::to_lowercase` depends on the text alone, and on ASCII text it maps the letters A to Z
/// and nothing else.
pub assume_specification[ str::to_lowercase ](s: &str) -> (r: String)
    ensures
        r@ == lowercase_of(s@),
        is_ascii_chars(s@) ==> r@ == ascii_lower(s@),
;

/// Writes a text in lower case.
pub fn lowercased(s: &str) -> (r: String)
    ensures
        r@ == lowercase_of(s@),
        is_ascii_chars(s@) ==> r@ == ascii_lower(s@),
{
    s.to_lowercase()
}

/// `s` followed by spaces up to `width` characters.
pub open spec fn pad_end(s: Seq<char>, width: nat) -> Seq<char>
    decreases width - s.len(),
{
    if s.len() >= width {
        s
    } else {
        pad_end(s.push(' '), width)
    }
}

/// Writes `s` and spaces after it, up to `width` characters.
pub fn padded_end(s: &str, width: usize) -> (r: String)
    ensures
        r@ == pad_end(s@, width as nat),
{
    let mut out = s.to_owned();
    let mut n: usize = chars_of(s).len();
    while n < width
        invariant
            n == out@.len(),
            pad_end(out@, width as nat) == pad_end(s@, width as nat),
        decreases width - n,
    {
        out.push(' ');
        n += 1;
    }
    out
}

/// Spaces followed by `s`, `width` characters in all unless `s` is longer.
pub open spec fn pad_start(s: Seq<char>, width: nat) -> Seq<char>
    decreases width - s.len(),
{
    if s.len() >= width {
        s
    } else {
        pad_start(seq![' '] + s, width)
    }
}

/// Writes spaces and then `s`, `width` characters in all unless `s` is longer.
pub fn padded_start(s: &str, width: usize) -> (r: String)
    ensures
        r@ == pad_start(s@, width as nat),
{
    let mut out = s.to_owned();
    let mut n: usize = chars_of(s).len();
    while n < width
        invariant
            n == out@.len(),
            pad_start(out@, width as nat) == pad_start(s@, width as nat),
        decreases width - n,
    {
        let mut more = String::new();
        more.push(' ');
        more.append(out.as_str());
        assert(more@ =~= seq![' '] + out@);
        out = more;
        n += 1;
    }
    out
}

/// The first position at or after `from` where `part` stands in `s`.
pub open spec fn find_from(s: Seq<char>, part: Seq<char>, from: int) -> Option<int>
    decreases s.len() - from + 1,
{
    if from + part.len() > s.len() {
        None
    } else if occurs_at(s, part, from) {
        Some(from)
    } else {
        find_from(s, part, from + 1)
    }
}

/// The fields of `s` from `start` on, between occurrences of `part`.
pub open spec fn split_from(s: Seq<char>, part: Seq<char>, start: int) -> Seq<Seq<char>>
    decreases s.len() - start,
{
    match find_from(s, part, start) {
        Some(i) if start <= i && part.len() > 0 && i + part.len() <= s.len() => seq![
            s.subrange(start, i),
        ] + split_from(s, part, i + part.len()),
        _ => seq![s.skip(start)],
    }
}

/// Splits `s` at every occurrence of `part`, keeping empty fields.
pub fn split_text(s: &str, part: &str) -> (r: Vec<String>)
    requires
        part@.len() > 0,
    ensures
        texts(r@) == split_from(s@, part@, 0),
{
    let a = chars_of(s);
    let b = chars_of(part);
    let n: usize = a.len();
    let m: usize = b.len();
    let mut out: Vec<String> = Vec::new();
    let mut start: usize = 0;
    let mut at: usize = 0;
    assert(texts(out@) + split_from(s@, part@, 0) =~= split_from(s@, part@, 0));
    while at <= n && m <= n - at
        invariant
            a@ == s@,
            b@ == part@,
            n == a@.len(),
            m == b@.len(),
            m > 0,
            start <= at <= n,
            find_from(s@, part@, start as int) == find_from(s@, part@, at as int),
            texts(out@) + split_from(s@, part@, start as int) == split_from(s@, part@, 0),
        decreases n + 1 - at,
    {
        if found_at(&a, &b, at) {
            let field = string_of(&a, start, at);
            let ghost was = texts(out@);
            out.push(field);
            assert(texts(out@) =~= was.push(field@));
            assert(find_from(s@, part@, start as int) == Some(at as int));
            assert(split_from(s@, part@, start as int) == seq![field@] + split_from(
                s@,
                part@,
                at + m,
            ));
            assert(was.push(field@) + split_from(s@, part@, at + m) =~= was + (seq![field@]
                + split_from(s@, part@, at + m)));
            at = at + m;
            start = at;
        } else {
            at += 1;
        }
    }
    let field = string_of(&a, start, n);
    let ghost was = texts(out@);
    assert(find_from(s@, part@, start as int) is None);
    assert(split_from(s@, part@, start as int) == seq![s@.skip(start as int)]);
    assert(field@ =~= s@.skip(start as int));
    out.push(field);
    assert(texts(out@) =~= was + seq![s@.skip(start as int)]);
    out
}

/// What stands before the suffix `part`, where `s` ends with it.
pub open spec fn before_suffix(s: Seq<char>, part: Seq<char>) -> Option<Seq<char>> {
    if is_suffix(s, part) {
        Some(s.take(s.len() - part.len()))
    } else {
        None
    }
}

/// What stands before the suffix `part`, where `s` ends with it.
pub fn strip_suffix(s: &str, part: &str) -> (r: Option<String>)
    ensures
        opt_text(r) == before_suffix(s@, part@),
{
    if ends_with(s, part) {
        let cs = chars_of(s);
        let m: usize = chars_of(part).len();
        let r = string_of(&cs, 0, cs.len() - m);
        assert(r@ =~= s@.take(s@.len() - part@.len()));
        Some(r)
    } else {
        None
    }
}

/// Writes ASCII letters in lower case.
pub fn ascii_lowered(s: &str) -> (r: String)
    ensures
        r@ == ascii_lower(s@),
{
    let cs = chars_of(s);
    let mut out = String::new();
    let mut i: usize = 0;
    while i < cs.len()
        invariant
            i <= cs@.len(),
            cs@ == s@,
            out@ == ascii_lower(s@).take(i as int),
        decreases cs@.len() - i,
    {
        let c: char = cs[i];
        let l: char = if c >= 'A' && c <= 'Z' {
            (c as u8 + 32) as char
        } else {
            c
        };
        out.push(l);
        i += 1;
        assert(out@ =~= ascii_lower(s@).take(i as int));
    }
    assert(ascii_lower(s@).take(i as int) =~= ascii_lower(s@));
    out
}

/// The words of `s` with one space between neighbours.
pub open spec fn squeezed(s: Seq<char>) -> Seq<char>
    decreases s.len(),
{
    if s.len() == 0 {
        Seq::empty()
    } else {
        let before = squeezed(s.drop_last());
        if is_space(s.last()) {
            before
        } else if before.len() > 0 && s.len() >= 2 && is_space(s[s.len() - 2]) {
            before.push(' ').push(s.last())
        } else {
            before.push(s.last())
        }
    }
}

/// Writes the words of `s` with one space between neighbours.
pub fn squeeze(s: &str) -> (r: String)
    ensures
        r@ == squeezed(s@),
{
    let cs = chars_of(s);
    let mut out = String::new();
    let mut begun: bool = false;
    let mut i: usize = 0;
    while i < cs.len()
        invariant
            i <= cs@.len(),
            cs@ == s@,
            out@ == squeezed(s@.take(i as int)),
            begun == (out@.len() > 0),
        decreases cs@.len() - i,
    {
        let ghost more = s@.take(i + 1);
        assert(more.drop_last() =~= s@.take(i as int));
        assert(more.last() == cs@[i as int]);
        if i > 0 {
            assert(more[more.len() - 2] == cs@[i - 1]);
        }
        if !space(cs[i]) {
            if begun && i > 0 && space(cs[i - 1]) {
                out.push(' ');
            }
            out.push(cs[i]);
            begun = true;
        }
        i += 1;
    }
    assert(s@.take(i as int) =~= s@);
    out
}

/// A text of one character.
pub fn one_char(c: char) -> (r: String)
    ensures
        r@ == seq![c],
{
    let mut s = String::new();
    s.push(c);
    assert(s@ =~= seq![c]);
    s
}

/// What stands before the first separator is the first field, and the rest is split on its own;
/// a text without a separator is one field.
pub proof fn law_first_field_ends_at_the_separator(f: Seq<char>, sep: char, rest: Seq<char>)
    requires
        !f.contains(sep),
    ensures
        split_on(f, sep) == seq![f],
        split_on(f + seq![sep] + rest, sep) == seq![f] + split_on(rest, sep),
    decreases f.len() + rest.len(),
{
    if rest.len() > 0 {
        let whole = f + seq![sep] + rest;
        law_first_field_ends_at_the_separator(f, sep, rest.drop_last());
        assert(whole.drop_last() =~= f + seq![sep] + rest.drop_last());
        lemma_split_fields(rest.drop_last(), sep);
        assert(split_on(whole, sep) =~= seq![f] + split_on(rest, sep));
    } else {
        if f.len() > 0 {
            let less = f.drop_last();
            assert(!less.contains(sep)) by {
                if less.contains(sep) {
                    let i = choose|i: int| 0 <= i < less.len() && less[i] == sep;
                    assert(f[i] == sep);
                }
            }
            assert(f.last() != sep) by {
                assert(f.contains(f.last()));
            }
            law_first_field_ends_at_the_separator(less, sep, rest);
            assert(less.push(f.last()) =~= f);
        } else {
            assert(f =~= Seq::<char>::empty());
        }
        assert(split_on(f, sep) =~= seq![f]);
        let whole = f + seq![sep] + rest;
        assert(whole.drop_last() =~= f);
        assert(whole.last() == sep);
        assert(split_on(whole, sep) =~= seq![f] + split_on(rest, sep));
    }
}

proof fn lemma_join_longer_last(parts: Seq<Seq<char>>, sep: Seq<char>, c: char)
    requires
        parts.len() >= 1,
    ensures
        join(parts.update(parts.len() - 1, parts.last().push(c)), sep) == join(parts, sep).push(c),
{
    let more = parts.update(parts.len() - 1, parts.last().push(c));
    if parts.len() > 1 {
        assert(more.drop_last() =~= parts.drop_last());
    }
    assert(join(more, sep) =~= join(parts, sep).push(c));
}

/// Splitting loses nothing: the fields with the separator between them are the text again.
pub proof fn law_joining_undoes_splitting(s: Seq<char>, sep: char)
    ensures
        join(split_on(s, sep), seq![sep]) == s,
    decreases s.len(),
{
    if s.len() > 0 {
        let fields = split_on(s.drop_last(), sep);
        law_joining_undoes_splitting(s.drop_last(), sep);
        lemma_split_fields(s.drop_last(), sep);
        if s.last() == sep {
            let more = fields.push(Seq::<char>::empty());
            assert(more.drop_last() =~= fields);
            assert(join(more, seq![sep]) =~= s);
        } else {
            lemma_join_longer_last(fields, seq![sep], s.last());
            assert(s.drop_last().push(s.last()) =~= s);
        }
    } else {
        assert(join(split_on(s, sep), seq![sep]) =~= s);
    }
}

/// Trimming takes white space off both ends, all of it and nothing else.
pub proof fn law_trimming_takes_the_ends_off(before: Seq<char>, body: Seq<char>, after: Seq<char>)
    requires
        forall|i: int| 0 <= i < before.len() ==> is_space(#[trigger] before[i]),
        forall|i: int| 0 <= i < after.len() ==> is_space(#[trigger] after[i]),
        body.len() > 0 ==> !is_space(body[0]) && !is_space(body.last()),
    ensures
        trim(before + body + after) == body,
    decreases before.len() + after.len(),
{
    let s = before + body + after;
    if before.len() > 0 {
        assert(is_space(before[0]));
        assert(s.drop_first() =~= before.drop_first() + body + after);
        law_trimming_takes_the_ends_off(before.drop_first(), body, after);
    } else if body.len() == 0 {
        assert(s =~= after);
        if after.len() > 0 {
            assert(is_space(after[0]));
            assert(s.drop_first() =~= before + body + after.drop_first());
            law_trimming_takes_the_ends_off(before, body, after.drop_first());
        } else {
            assert(trim(s) =~= body);
        }
    } else {
        assert(s[0] == body[0]);
        lemma_trim_tail(body, after);
        assert(s =~= body + after);
    }
}

proof fn lemma_trim_tail(body: Seq<char>, after: Seq<char>)
    requires
        forall|i: int| 0 <= i < after.len() ==> is_space(#[trigger] after[i]),
        body.len() > 0 && !is_space(body.last()),
    ensures
        trim_end(body + after) == body,
    decreases after.len(),
{
    if after.len() > 0 {
        assert(is_space(after[after.len() - 1]));
        assert((body + after).last() == after[after.len() - 1]);
        assert((body + after).drop_last() =~= body + after.drop_last());
        lemma_trim_tail(body, after.drop_last());
    } else {
        assert(body + after =~= body);
    }
}

/// Padding keeps the text and adds only spaces, after it or before it, up to the width.
pub proof fn law_padding_adds_spaces_only(s: Seq<char>, width: nat)
    ensures
        pad_end(s, width).len() == if s.len() >= width {
            s.len()
        } else {
            width
        },
        pad_end(s, width).take(s.len() as int) == s,
        forall|i: int| s.len() <= i < pad_end(s, width).len() ==> pad_end(s, width)[i] == ' ',
        pad_start(s, width).len() == pad_end(s, width).len(),
        pad_start(s, width).skip(pad_start(s, width).len() - s.len()) == s,
        forall|i: int|
            0 <= i < pad_start(s, width).len() - s.len() ==> pad_start(s, width)[i] == ' ',
    decreases width - s.len(),
{
    if s.len() >= width {
        assert(s.take(s.len() as int) =~= s);
        assert(s.skip(0) =~= s);
    } else {
        let more = s.push(' ');
        let after = pad_end(more, width);
        law_padding_adds_spaces_only(more, width);
        assert(after.take(s.len() as int) =~= after.take(more.len() as int).take(s.len() as int));
        assert(more.take(s.len() as int) =~= s);
        assert(after[s.len() as int] == ' ') by {
            assert(after.take(more.len() as int)[s.len() as int] == ' ');
        }
        let led = seq![' '] + s;
        let before = pad_start(led, width);
        law_padding_adds_spaces_only(led, width);
        let n = before.len() - s.len();
        assert(before.skip(n) =~= before.skip(n - 1).skip(1));
        assert(led.skip(1) =~= s);
        assert(before[n - 1] == ' ') by {
            assert(before.skip(n - 1)[0] == ' ');
        }
    }
}

/// Words come out as they are, with one space between neighbours, whatever white space and
/// however much of it stood there.
pub proof fn law_words_are_kept_one_space_apart(a: Seq<char>, gap: char, b: Seq<char>)
    requires
        is_space(gap),
    ensures
        squeezed(a + seq![gap] + b) == (if squeezed(a).len() > 0 && squeezed(b).len() > 0 {
            squeezed(a) + seq![' '] + squeezed(b)
        } else {
            squeezed(a) + squeezed(b)
        }),
        (forall|i: int| 0 <= i < a.len() ==> !is_space(#[trigger] a[i])) ==> squeezed(a) == a,
    decreases a.len() + b.len(),
{
    if b.len() > 0 {
        let less = b.drop_last();
        let s = a + seq![gap] + b;
        law_words_are_kept_one_space_apart(a, gap, less);
        assert(s.drop_last() =~= a + seq![gap] + less);
        assert(s.last() == b.last());
        if b.len() == 1 {
            assert(s[s.len() - 2] == gap);
            assert(squeezed(less) =~= Seq::<char>::empty());
        } else {
            assert(s[s.len() - 2] == b[b.len() - 2]);
        }
        if !is_space(b.last()) && b.len() > 1 && squeezed(less).len() == 0 {
            lemma_nothing_but_spaces(less);
            assert(is_space(less[less.len() - 1]));
        }
        assert(squeezed(s) =~= (if squeezed(a).len() > 0 && squeezed(b).len() > 0 {
            squeezed(a) + seq![' '] + squeezed(b)
        } else {
            squeezed(a) + squeezed(b)
        }));
    } else {
        let s = a + seq![gap] + b;
        assert(s.drop_last() =~= a);
        assert(squeezed(s) =~= squeezed(a) + squeezed(b));
        if a.len() > 0 && forall|i: int| 0 <= i < a.len() ==> !is_space(#[trigger] a[i]) {
            law_words_are_kept_one_space_apart(a.drop_last(), gap, b);
            assert(!is_space(a[a.len() - 1]));
            assert(a.len() >= 2 ==> !is_space(a[a.len() - 2]));
            assert forall|i: int| 0 <= i < a.drop_last().len() implies !is_space(
                #[trigger] a.drop_last()[i],
            ) by {
                assert(!is_space(a[i]));
            }
            assert(squeezed(a) =~= a);
        }
    }
}

proof fn lemma_nothing_but_spaces(s: Seq<char>)
    requires
        squeezed(s).len() == 0,
    ensures
        forall|i: int| 0 <= i < s.len() ==> is_space(#[trigger] s[i]),
    decreases s.len(),
{
    if s.len() > 0 {
        assert(is_space(s.last()));
        lemma_nothing_but_spaces(s.drop_last());
        assert forall|i: int| 0 <= i < s.len() implies is_space(#[trigger] s[i]) by {
            if i < s.len() - 1 {
                assert(is_space(s.drop_last()[i]));
            }
        }
    }
}

/// A part is found where it first stands: it stands there, and nowhere between.
pub proof fn law_part_is_found_where_it_first_stands(s: Seq<char>, part: Seq<char>, from: int)
    requires
        0 <= from,
    ensures
        find_from(s, part, from) matches Some(i) ==> from <= i && occurs_at(s, part, i)
            && forall|j: int| from <= j < i ==> !(#[trigger] occurs_at(s, part, j)),
        find_from(s, part, from) is None ==> forall|j: int|
            from <= j ==> !(#[trigger] occurs_at(s, part, j)),
    decreases s.len() - from + 1,
{
    if from + part.len() <= s.len() && !occurs_at(s, part, from) {
        law_part_is_found_where_it_first_stands(s, part, from + 1);
    }
}

proof fn lemma_join_first(first: Seq<char>, rest: Seq<Seq<char>>, sep: Seq<char>)
    requires
        rest.len() >= 1,
    ensures
        join(seq![first] + rest, sep) == first + sep + join(rest, sep),
    decreases rest.len(),
{
    reveal_with_fuel(join, 2);
    let all = seq![first] + rest;
    assert(all.drop_last() =~= seq![first] + rest.drop_last());
    assert(all.last() == rest.last());
    if rest.len() == 1 {
        assert(all.drop_last() =~= seq![first]);
        assert(join(all, sep) =~= first + sep + join(rest, sep));
    } else {
        lemma_join_first(first, rest.drop_last(), sep);
        assert(join(all, sep) =~= first + sep + join(rest, sep));
    }
}

/// Splitting at a part loses nothing: the fields with the part between them are the text again.
pub proof fn law_joining_undoes_splitting_at_a_part(s: Seq<char>, part: Seq<char>, start: int)
    requires
        part.len() > 0,
        0 <= start <= s.len(),
    ensures
        split_from(s, part, start).len() >= 1,
        join(split_from(s, part, start), part) == s.skip(start),
    decreases s.len() - start,
{
    law_part_is_found_where_it_first_stands(s, part, start);
    match find_from(s, part, start) {
        Some(i) => {
            law_joining_undoes_splitting_at_a_part(s, part, i + part.len());
            lemma_join_first(s.subrange(start, i), split_from(s, part, i + part.len()), part);
            assert(s.subrange(start, i) + part + s.skip(i + part.len()) =~= s.skip(start));
        },
        None => {},
    }
}

/// A numeral of two digits reads back as its number, a negative one after its sign.
pub proof fn law_numerals_read_back(n: nat)
    ensures
        digits_value(decimal2(n)) == n,
        decimal2(n).len() >= 2,
        n < 100 ==> decimal2(n).len() == 2,
        n > 0 ==> signed_decimal(-n) == seq!['-'] + signed_decimal(n as int),
        unsigned_value(signed_decimal(n as int)) == Some(n),
{
    lemma_decimal_reads_back(n);
    reveal_with_fuel(decimal, 3);
    if n < 10 {
        let s = decimal2(n);
        reveal_with_fuel(digits_value, 3);
        assert(s.drop_last() =~= seq!['0']);
        assert(s.drop_last().drop_last() =~= Seq::<char>::empty());
        assert(decimal(n).drop_last() =~= Seq::<char>::empty());
    } else if n < 100 {
        assert(n / 10 < 10);
        assert(decimal(n / 10).len() == 1);
    } else {
        lemma_decimal_reads_back(n / 10);
    }
}

/// Letters change their case and nothing else changes: the two ways undo one another.
pub proof fn law_only_letters_change_case(c: char)
    ensures
        'a' <= c <= 'z' ==> 'A' <= upper_char(c) <= 'Z' && lower_char(upper_char(c)) == c,
        'A' <= c <= 'Z' ==> 'a' <= lower_char(c) <= 'z' && upper_char(lower_char(c)) == c,
        !('a' <= c <= 'z') ==> upper_char(c) == c,
        !('A' <= c <= 'Z') ==> lower_char(c) == c,
{
}

/// A suffix is told by what it ends, and what stood before it comes back.
pub proof fn law_suffix_comes_off(a: Seq<char>, part: Seq<char>)
    ensures
        before_suffix(a + part, part) == Some(a),
{
    let s = a + part;
    assert(s.subrange(a.len() as int, s.len() as int) =~= part);
    assert(s.take(a.len() as int) =~= a);
}

/// A line is read back as it was written, whether it ends in a line feed, in a carriage return
/// and a line feed, or with the text.
pub proof fn law_lines_are_read_back(line: Seq<char>, rest: Seq<char>)
    requires
        !line.contains('\n'),
    ensures
        line.len() > 0 ==> text_lines(line) == seq![line],
        text_lines(line + seq!['\n'] + rest) == seq![without_return(line)] + text_lines(rest),
        without_return(line.push('\r')) == line,
        !line.contains('\r') ==> without_return(line) == line,
{
    law_first_field_ends_at_the_separator(line, '\n', rest);
    lemma_split_fields(rest, '\n');
    let parts = split_on(rest, '\n');
    let all = seq![line] + parts;
    assert(all.last() == parts.last());
    assert(all.drop_last() =~= seq![line] + parts.drop_last());
    assert(all.drop_last().map_values(|l: Seq<char>| without_return(l)) =~= seq![
        without_return(line),
    ] + parts.drop_last().map_values(|l: Seq<char>| without_return(l)));
    assert(text_lines(line + seq!['\n'] + rest) =~= seq![without_return(line)] + text_lines(rest));
    let alone = seq![line];
    assert(alone.drop_last().map_values(|l: Seq<char>| without_return(l)) =~= Seq::<
        Seq<char>,
    >::empty());
    if line.len() > 0 {
        assert(text_lines(line) =~= seq![line]);
        assert(line.contains(line.last()));
    }
    assert(line.push('\r').drop_last() =~= line);
}

} // verus!
