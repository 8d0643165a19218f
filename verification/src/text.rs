//! Text building blocks: decimal numerals, joining, and dictionary order.

use vstd::prelude::*;
use vstd::string::StringExecFns;

verus! {

/// `String::push`: the character is appended and nothing else changes.
pub assume_specification[ String::push ](s: &mut String, c: char)
    ensures
        final(s)@ == old(s)@.push(c),
;

/// The character that stands for a decimal digit.
pub open spec fn digit(d: int) -> char {
    (48 + d) as char
}

/// The decimal numeral of `n`, without leading zeros.
pub open spec fn decimal(n: nat) -> Seq<char>
    decreases n,
{
    if n < 10 {
        seq![digit(n as int)]
    } else {
        decimal(n / 10).push(digit((n % 10) as int))
    }
}

/// `n` zeros.
pub open spec fn zeros(n: nat) -> Seq<char> {
    Seq::new(n, |i: int| '0')
}

/// The decimal numeral of `n`, filled up with zeros on the left to `width`.
pub open spec fn padded(n: nat, width: nat) -> Seq<char> {
    let d = decimal(n);
    if d.len() < width {
        zeros((width - d.len()) as nat) + d
    } else {
        d
    }
}

fn digit_char(d: u64) -> (c: char)
    requires
        d < 10,
    ensures
        c == digit(d as int),
{
    match d {
        0 => '0',
        1 => '1',
        2 => '2',
        3 => '3',
        4 => '4',
        5 => '5',
        6 => '6',
        7 => '7',
        8 => '8',
        _ => '9',
    }
}

/// Appends the decimal numeral of `n`.
pub fn push_decimal(out: &mut String, n: u64)
    ensures
        final(out)@ == old(out)@ + decimal(n as nat),
    decreases n,
{
    if n >= 10 {
        push_decimal(out, n / 10);
    }
    out.push(digit_char(n % 10));
}

/// Appends the decimal numeral of `n`, filled up with zeros on the left to `width`.
pub fn push_padded(out: &mut String, n: u64, width: usize)
    ensures
        final(out)@ == old(out)@ + padded(n as nat, width as nat),
    decreases width,
{
    if width <= 1 {
        proof {
            lemma_decimal_len(n as nat);
        }
        push_decimal(out, n);
    } else {
        let ghost before = out@;
        push_padded(out, n / 10, width - 1);
        out.push(digit_char(n % 10));
        proof {
            lemma_padded_step(n as nat, width as nat);
            assert(out@ =~= before + padded(n as nat, width as nat));
        }
    }
}

/// Appends the decimal numeral of `n`, with a minus sign where it is negative.
pub fn push_signed(out: &mut String, n: i64)
    ensures
        final(out)@ == old(out)@ + signed_decimal(n as int),
{
    if n < 0 {
        out.push('-');
        let magnitude: u64 = if n == i64::MIN {
            0x8000_0000_0000_0000u64
        } else {
            (-n) as u64
        };
        let ghost after_sign = out@;
        push_decimal(out, magnitude);
        assert(old(out)@.push('-') + decimal(magnitude as nat) =~= old(out)@ + signed_decimal(
            n as int,
        ));
    } else {
        push_decimal(out, n as u64);
    }
}

/// The decimal numeral of `n`, with a minus sign where it is negative.
pub open spec fn signed_decimal(n: int) -> Seq<char> {
    if n < 0 {
        seq!['-'] + decimal((-n) as nat)
    } else {
        decimal(n as nat)
    }
}

/// The words, one after the other, with `sep` between neighbours.
pub open spec fn joined(words: Seq<Seq<char>>, sep: Seq<char>) -> Seq<char>
    decreases words.len(),
{
    if words.len() == 0 {
        Seq::empty()
    } else if words.len() == 1 {
        words[0]
    } else {
        joined(words.drop_last(), sep) + sep + words.last()
    }
}

/// The contents of a list of strings.
pub open spec fn contents(words: Seq<String>) -> Seq<Seq<char>> {
    words.map_values(|w: String| w@)
}

/// Joins `words` with `sep` between neighbours.
pub fn join(words: &Vec<String>, sep: &str) -> (text: String)
    ensures
        text@ == joined(contents(words@), sep@),
{
    let mut text = String::new();
    let mut i: usize = 0;
    while i < words.len()
        invariant
            i <= words.len(),
            text@ == joined(contents(words@).take(i as int), sep@),
        decreases words.len() - i,
    {
        let ghost done = contents(words@).take(i as int);
        let ghost next = contents(words@).take(i + 1);
        proof {
            assert(next.drop_last() =~= done);
            assert(next.last() == words@[i as int]@);
        }
        if i > 0 {
            text.append(sep);
        } else {
            assert(next =~= seq![words@[0]@]);
        }
        text.append(words[i].as_str());
        i = i + 1;
    }
    assert(contents(words@).take(i as int) =~= contents(words@));
    text
}

/// The characters of `s`.
pub fn chars_of(s: &str) -> (chars: Vec<char>)
    ensures
        chars@ == s@,
{
    let mut chars: Vec<char> = Vec::new();
    for c in it: s.chars()
        invariant
            chars@ == it.seq().take(it.index() as int),
            it.seq() == s@,
    {
        chars.push(c);
        assert(chars@ =~= it.seq().take(it.index() as int + 1));
    }
    assert(chars@ =~= s@);
    chars
}

/// The string of the characters at `from..to`.
pub fn string_of(chars: &Vec<char>, from: usize, to: usize) -> (s: String)
    requires
        from <= to <= chars.len(),
    ensures
        s@ == chars@.subrange(from as int, to as int),
{
    let mut s = String::new();
    let mut i: usize = from;
    while i < to
        invariant
            from <= i <= to <= chars.len(),
            s@ == chars@.subrange(from as int, i as int),
        decreases to - i,
    {
        s.push(chars[i]);
        i = i + 1;
        assert(s@ =~= chars@.subrange(from as int, i as int));
    }
    s
}

/// Whether `a` and `b` agree on their first `k` characters.
pub open spec fn agree(a: Seq<char>, b: Seq<char>, k: int) -> bool {
    0 <= k <= a.len() && k <= b.len() && forall|j: int| 0 <= j < k ==> a[j] == b[j]
}

/// Whether `a` stands before `b` because of position `k`: they agree up to
/// there, and then `a` ends or has the smaller character.
pub open spec fn decided_at(a: Seq<char>, b: Seq<char>, k: int) -> bool {
    agree(a, b, k) && k < b.len() && (k == a.len() || a[k] < b[k])
}

/// Dictionary order on character codes: `a` stands before `b`.
pub open spec fn before(a: Seq<char>, b: Seq<char>) -> bool {
    exists|k: int| #[trigger] decided_at(a, b, k)
}

/// Whether `a` stands before `b` in dictionary order.
pub fn text_before(a: &str, b: &str) -> (less: bool)
    ensures
        less == before(a@, b@),
{
    let x = chars_of(a);
    let y = chars_of(b);
    let mut i: usize = 0;
    while i < x.len() && i < y.len() && x[i] == y[i]
        invariant
            i <= x.len(),
            i <= y.len(),
            agree(x@, y@, i as int),
        decreases x.len() - i,
    {
        i = i + 1;
    }
    if i < y.len() && (i == x.len() || x[i] < y[i]) {
        assert(decided_at(x@, y@, i as int));
        true
    } else {
        assert forall|k: int| !decided_at(x@, y@, k) by {
            if decided_at(x@, y@, k) {
                if k < i {
                    assert(x@[k] == y@[k]);
                } else if k > i {
                    assert(x@[i as int] == y@[i as int]);
                }
            }
        }
        false
    }
}

/// Whether `s` begins with `prefix`.
pub open spec fn begins(s: Seq<char>, prefix: Seq<char>) -> bool {
    prefix.len() <= s.len() && s.take(prefix.len() as int) == prefix
}

/// Whether `s` ends in `suffix`.
pub open spec fn ends(s: Seq<char>, suffix: Seq<char>) -> bool {
    suffix.len() <= s.len() && s.skip(s.len() - suffix.len()) == suffix
}

fn same_at(s: &Vec<char>, part: &Vec<char>, at: usize) -> (same: bool)
    requires
        at + part.len() <= s.len(),
    ensures
        same == (s@.subrange(at as int, at + part.len()) == part@),
{
    let mut i: usize = 0;
    while i < part.len()
        invariant
            i <= part.len(),
            at + part.len() <= s.len(),
            forall|j: int| 0 <= j < i ==> s@[at + j] == part@[j],
        decreases part.len() - i,
    {
        if s[at + i] != part[i] {
            assert(s@.subrange(at as int, at + part.len())[i as int] != part@[i as int]);
            return false;
        }
        i = i + 1;
    }
    assert(s@.subrange(at as int, at + part.len()) =~= part@);
    true
}

/// Whether two texts are the same.
pub fn same(a: &str, b: &str) -> (yes: bool)
    ensures
        yes == (a@ == b@),
{
    let x = chars_of(a);
    let y = chars_of(b);
    if x.len() != y.len() {
        return false;
    }
    let yes = same_at(&x, &y, 0);
    assert(x@.subrange(0, y@.len() as int) =~= x@);
    yes
}

/// Whether `s` begins with `prefix`.
pub fn starts_with(s: &str, prefix: &str) -> (yes: bool)
    ensures
        yes == begins(s@, prefix@),
{
    let x = chars_of(s);
    let p = chars_of(prefix);
    if p.len() > x.len() {
        return false;
    }
    proof {
        assert(x@.subrange(0, p.len() as int) =~= x@.take(p.len() as int));
    }
    same_at(&x, &p, 0)
}

/// Whether `s` ends in `suffix`.
pub fn ends_with(s: &str, suffix: &str) -> (yes: bool)
    ensures
        yes == ends(s@, suffix@),
{
    let x = chars_of(s);
    let p = chars_of(suffix);
    if p.len() > x.len() {
        return false;
    }
    let at: usize = x.len() - p.len();
    proof {
        assert(x@.subrange(at as int, at + p.len()) =~= x@.skip(x@.len() - p@.len()));
    }
    same_at(&x, &p, at)
}

// ---- numerals ------------------------------------------------------------

/// Ten to the power `e`.
pub open spec fn ten_to(e: nat) -> nat
    decreases e,
{
    if e == 0 {
        1
    } else {
        10 * ten_to((e - 1) as nat)
    }
}

/// A numeral is never empty.
pub proof fn lemma_decimal_len(n: nat)
    ensures
        decimal(n).len() >= 1,
    decreases n,
{
    if n >= 10 {
        lemma_decimal_len(n / 10);
    }
}

/// A number below `10^e` has at most `e` digits.
pub proof fn lemma_decimal_short(n: nat, e: nat)
    requires
        n < ten_to(e),
        e > 0,
    ensures
        decimal(n).len() <= e,
    decreases e,
{
    if n >= 10 {
        if e == 1 {
            assert(ten_to(1) == 10) by {
                reveal_with_fuel(ten_to, 2);
            }
        } else {
            lemma_decimal_short(n / 10, (e - 1) as nat);
        }
    }
}

/// The last digit of a padded numeral stands by itself.
pub proof fn lemma_padded_step(n: nat, width: nat)
    requires
        width >= 2,
    ensures
        padded(n, width) == padded(n / 10, (width - 1) as nat).push(digit((n % 10) as int)),
{
    lemma_decimal_len(n);
    lemma_decimal_len(n / 10);
    if n < 10 {
        assert(padded(n, width) =~= padded(n / 10, (width - 1) as nat).push(
            digit((n % 10) as int),
        ));
    } else {
        assert(padded(n, width) =~= padded(n / 10, (width - 1) as nat).push(
            digit((n % 10) as int),
        ));
    }
}

/// A number below `10^width` is padded to exactly `width` characters.
pub proof fn lemma_padded_len(n: nat, width: nat)
    requires
        n < ten_to(width),
        width > 0,
    ensures
        padded(n, width).len() == width,
{
    lemma_decimal_short(n, width);
}

/// On numerals of one width, dictionary order is numeric order.
pub proof fn lemma_padded_order(m: nat, n: nat, width: nat)
    requires
        m < n,
        n < ten_to(width),
        width > 0,
    ensures
        before(padded(m, width), padded(n, width)),
    decreases width,
{
    lemma_padded_len(m, width);
    lemma_padded_len(n, width);
    if width == 1 {
        assert(ten_to(1) == 10) by {
            reveal_with_fuel(ten_to, 2);
        }
        assert(decided_at(padded(m, width), padded(n, width), 0));
    } else {
        let w = (width - 1) as nat;
        lemma_padded_step(m, width);
        lemma_padded_step(n, width);
        lemma_padded_len(m / 10, w);
        lemma_padded_len(n / 10, w);
        if m / 10 < n / 10 {
            lemma_padded_order(m / 10, n / 10, w);
            let high = padded(m / 10, w);
            let higher = padded(n / 10, w);
            let k = choose|k: int| decided_at(high, higher, k);
            assert(decided_at(padded(m, width), padded(n, width), k));
        } else {
            assert(m / 10 == n / 10);
            assert(decided_at(padded(m, width), padded(n, width), w as int));
        }
    }
}

// ---- dictionary order ----------------------------------------------------

/// What is decided within a common beginning stays decided.
pub proof fn lemma_before_prefix(p: Seq<char>, a: Seq<char>, b: Seq<char>)
    requires
        before(a, b),
    ensures
        before(p + a, p + b),
{
    let k = choose|k: int| decided_at(a, b, k);
    assert forall|j: int| 0 <= j < p.len() + k implies (p + a)[j] == (p + b)[j] by {
        if j >= p.len() {
            assert(a[j - p.len()] == b[j - p.len()]);
        }
    }
    assert(decided_at(p + a, p + b, p.len() + k));
}

/// What two texts of one length decide is not changed by what follows them.
pub proof fn lemma_before_suffix(a: Seq<char>, b: Seq<char>, s: Seq<char>, t: Seq<char>)
    requires
        before(a, b),
        a.len() == b.len(),
    ensures
        before(a + s, b + t),
{
    let k = choose|k: int| decided_at(a, b, k);
    assert(decided_at(a + s, b + t, k));
}

/// Dictionary order is transitive.
pub proof fn lemma_before_trans(a: Seq<char>, b: Seq<char>, c: Seq<char>)
    requires
        before(a, b),
        before(b, c),
    ensures
        before(a, c),
{
    let j = choose|k: int| decided_at(a, b, k);
    let k = choose|k: int| decided_at(b, c, k);
    let m = if j <= k {
        j
    } else {
        k
    };
    assert(decided_at(a, c, m));
}

/// No text stands before itself.
pub proof fn lemma_before_irreflexive(a: Seq<char>)
    ensures
        !before(a, a),
{
}

/// Of two different texts one stands before the other.
pub proof fn lemma_before_total(a: Seq<char>, b: Seq<char>)
    ensures
        a == b || before(a, b) || before(b, a),
{
    lemma_before_total_from(a, b, 0);
}

proof fn lemma_before_total_from(a: Seq<char>, b: Seq<char>, k: int)
    requires
        agree(a, b, k),
    ensures
        a == b || before(a, b) || before(b, a),
    decreases a.len() - k,
{
    if k < a.len() && k < b.len() && a[k] == b[k] {
        lemma_before_total_from(a, b, k + 1);
    } else if k == a.len() && k == b.len() {
        assert(a =~= b);
    } else if k < b.len() && (k == a.len() || a[k] < b[k]) {
        assert(decided_at(a, b, k));
    } else {
        assert(decided_at(b, a, k));
    }
}

// ---- laws ----------------------------------------------------------------

/// The number that a text of digits stands for.
pub open spec fn value_of(s: Seq<char>) -> int
    decreases s.len(),
{
    if s.len() == 0 {
        0
    } else {
        10 * value_of(s.drop_last()) + (s.last() as int - '0' as int)
    }
}

/// Whether a text holds nothing but digits.
pub open spec fn all_digits(s: Seq<char>) -> bool {
    forall|i: int| 0 <= i < s.len() ==> '0' <= (#[trigger] s[i]) <= '9'
}

/// A numeral reads back as its number: it holds digits only, and none is spent on a
/// leading zero.
pub proof fn law_numerals_read_back(n: nat)
    ensures
        value_of(decimal(n)) == n,
        all_digits(decimal(n)),
        decimal(n).len() >= 1,
        n > 0 ==> decimal(n)[0] != '0',
        decimal(0) == seq!['0'],
    decreases n,
{
    reveal_with_fuel(value_of, 2);
    if n >= 10 {
        law_numerals_read_back(n / 10);
        let high = decimal(n / 10);
        let all = decimal(n);
        assert(all.drop_last() =~= high);
        assert(all.last() == digit((n % 10) as int));
        assert forall|i: int| 0 <= i < all.len() implies '0' <= (#[trigger] all[i]) <= '9' by {
            if i < high.len() {
                assert(all[i] == high[i]);
            }
        }
        assert(all[0] == high[0]);
    } else {
        assert(decimal(n) =~= seq![digit(n as int)]);
        assert(decimal(n).drop_last() =~= Seq::empty());
        assert(decimal(n).last() == digit(n as int));
    }
}

proof fn lemma_zeros_count_nothing(k: nat, s: Seq<char>)
    ensures
        value_of(zeros(k) + s) == value_of(s),
    decreases s.len(), k,
{
    let all = zeros(k) + s;
    if s.len() > 0 {
        assert(all.drop_last() =~= zeros(k) + s.drop_last());
        assert(all.last() == s.last());
        lemma_zeros_count_nothing(k, s.drop_last());
    } else if k > 0 {
        assert(all.drop_last() =~= zeros((k - 1) as nat) + s);
        assert(all.last() == '0');
        lemma_zeros_count_nothing((k - 1) as nat, s);
    } else {
        assert(all =~= s);
    }
}

/// A padded numeral reads back as its number, is at least as long as asked for, and
/// is filled up with zeros on the left only as far as needed.
pub proof fn law_padded_numerals_read_back(n: nat, width: nat)
    ensures
        value_of(padded(n, width)) == n,
        all_digits(padded(n, width)),
        padded(n, width).len() == (if decimal(n).len() < width {
            width
        } else {
            decimal(n).len()
        }),
        forall|i: int|
            0 <= i < padded(n, width).len() - decimal(n).len() ==> (#[trigger] padded(n, width)[i])
                == '0',
        ends(padded(n, width), decimal(n)),
{
    law_numerals_read_back(n);
    let d = decimal(n);
    let p = padded(n, width);
    if d.len() < width {
        let k = (width - d.len()) as nat;
        lemma_zeros_count_nothing(k, d);
        assert(p =~= zeros(k) + d);
        assert forall|i: int| 0 <= i < p.len() implies '0' <= (#[trigger] p[i]) <= '9' by {
            if i >= k {
                assert(p[i] == d[i - k]);
            }
        }
        assert(p.skip(p.len() - d.len()) =~= d);
    } else {
        assert(p.skip(0) =~= d);
    }
}

/// A signed numeral is the numeral of the magnitude, behind a minus sign exactly
/// where the number is negative.
pub proof fn law_signed_numerals(n: nat)
    ensures
        signed_decimal(n as int) == decimal(n),
        n > 0 ==> signed_decimal(-(n as int)) == seq!['-'] + decimal(n),
        value_of(signed_decimal(n as int)) == n,
        n > 0 ==> signed_decimal(-(n as int))[0] == '-' && value_of(
            signed_decimal(-(n as int)).skip(1),
        ) == n,
{
    law_numerals_read_back(n);
    if n > 0 {
        assert((seq!['-'] + decimal(n)).skip(1) =~= decimal(n));
    }
}

/// Joining: nothing gives nothing, one word itself, and two runs of words are joined
/// with one separator between them.
pub proof fn law_joining(a: Seq<Seq<char>>, b: Seq<Seq<char>>, word: Seq<char>, sep: Seq<char>)
    requires
        a.len() > 0,
        b.len() > 0,
    ensures
        joined(Seq::<Seq<char>>::empty(), sep) == Seq::<char>::empty(),
        joined(seq![word], sep) == word,
        joined(a + b, sep) == joined(a, sep) + sep + joined(b, sep),
    decreases b.len(),
{
    let all = a + b;
    assert(all.last() == b.last());
    if b.len() == 1 {
        assert(all.drop_last() =~= a);
        assert(joined(b, sep) == b[0]);
    } else {
        assert(all.drop_last() =~= a + b.drop_last());
        law_joining(a, b.drop_last(), word, sep);
        assert(joined(all, sep) =~= joined(a, sep) + sep + joined(b, sep));
    }
}

/// Dictionary order is decided by the first character that differs; where there is
/// none, the shorter text comes first.
pub proof fn law_dictionary_order(
    p: Seq<char>,
    x: char,
    y: char,
    a: Seq<char>,
    b: Seq<char>,
)
    ensures
        x < y ==> before(p + seq![x] + a, p + seq![y] + b) && !before(
            p + seq![y] + b,
            p + seq![x] + a,
        ),
        before(p, p + seq![y] + b) && !before(p + seq![y] + b, p),
        !before(p, p),
{
    let s = p + seq![x] + a;
    let t = p + seq![y] + b;
    let n = p.len() as int;
    assert(t[n] == y);
    assert(s[n] == x);
    if x < y {
        assert(decided_at(s, t, n));
        assert forall|k: int| !decided_at(t, s, k) by {
            if decided_at(t, s, k) && k > n {
                assert(t[n] == s[n]);
            }
            if decided_at(t, s, k) && k < n {
                assert(t[k] == s[k]);
            }
        }
    }
    assert(decided_at(p, t, n));
    assert forall|k: int| !decided_at(t, p, k) by {
        if decided_at(t, p, k) {
            assert(t[k] == p[k]);
        }
    }
}

/// A text begins with another exactly where it is that one with something behind it,
/// and ends in it exactly where something stands before it.
pub proof fn law_beginnings_and_ends(s: Seq<char>, part: Seq<char>, rest: Seq<char>)
    ensures
        begins(part + rest, part),
        ends(rest + part, part),
        begins(s, part) ==> part + s.skip(part.len() as int) == s,
        ends(s, part) ==> s.take(s.len() - part.len()) + part == s,
{
    assert((part + rest).take(part.len() as int) =~= part);
    assert((rest + part).skip(rest.len() as int) =~= part);
    if begins(s, part) {
        assert(part + s.skip(part.len() as int) =~= s);
    }
    if ends(s, part) {
        assert(s.take(s.len() - part.len()) + part =~= s);
    }
}

/// The contents of a list of strings are the texts of its strings, in order.
pub proof fn law_contents_are_the_texts(words: Seq<String>, i: int)
    requires
        0 <= i < words.len(),
    ensures
        contents(words).len() == words.len(),
        contents(words)[i] == words[i]@,
{
}

}
