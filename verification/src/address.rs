//! IP addresses in text form.
use crate::text::{chars_of, find, split};
#[allow(unused_imports)]
use crate::text::{
    first_occurrence, joined, joined_parts_are_cut_again,
    lemma_first_occurrence, lemma_joined_front, occurs_at, pieces, pieces_make_up_the_text, views,
};
use vstd::prelude::*;
use vstd::slice::slice_subrange;

verus! {

/// `0` to `9`.
pub open spec fn is_decimal_digit(c: char) -> bool {
    '0' <= c <= '9'
}

/// `0` to `9`, `a` to `f` or `A` to `F`.
pub open spec fn is_hex_digit(c: char) -> bool {
    is_decimal_digit(c) || 'a' <= c <= 'f' || 'A' <= c <= 'F'
}

/// The number that decimal digits stand for.
pub open spec fn decimal_value(s: Seq<char>) -> int
    decreases s.len(),
{
    if s.len() == 0 {
        0
    } else {
        10 * decimal_value(s.drop_last()) + (s.last() as u32 - '0' as u32)
    }
}

/// A number from 0 to 255 in decimal digits, without leading zeros.
pub open spec fn is_octet(s: Seq<char>) -> bool {
    &&& 1 <= s.len() <= 3
    &&& forall|i: int| 0 <= i < s.len() ==> is_decimal_digit(#[trigger] s[i])
    &&& s.len() > 1 ==> s[0] != '0'
    &&& decimal_value(s) <= 255
}

/// An IPv4 address: four octets, with dots between them.
pub open spec fn is_ipv4(s: Seq<char>) -> bool {
    let parts = pieces(s, '.');
    &&& parts.len() == 4
    &&& forall|i: int| 0 <= i < 4 ==> is_octet(#[trigger] parts[i])
}

/// A group of an IPv6 address: 16 bits in one to four hexadecimal digits.
pub open spec fn is_group(s: Seq<char>) -> bool {
    &&& 1 <= s.len() <= 4
    &&& forall|i: int| 0 <= i < s.len() ==> is_hex_digit(#[trigger] s[i])
}

/// How many groups a part of an IPv6 address stands for: the groups that it lists with colons
/// between them, and two more where an IPv4 address may end the list and does.
pub open spec fn group_count(s: Seq<char>, ipv4_may_end: bool) -> Option<int> {
    let parts = pieces(s, ':');
    if s.len() == 0 {
        Some(0)
    } else if exists|i: int| 0 <= i < parts.len() - 1 && !is_group(#[trigger] parts[i]) {
        None
    } else if is_group(parts.last()) {
        Some(parts.len() as int)
    } else if ipv4_may_end && is_ipv4(parts.last()) {
        Some(parts.len() as int + 1)
    } else {
        None
    }
}

/// An IPv6 address: eight groups, of which `::` leaves out one or more that are zero. An IPv4
/// address may stand for the last two.
pub open spec fn is_ipv6(s: Seq<char>) -> bool {
    match first_occurrence(s, "::"@) {
        None => group_count(s, true) == Some(8int),
        Some(i) => match (group_count(s.take(i), false), group_count(s.skip(i + 2), true)) {
            (Some(head), Some(tail)) => head + tail <= 7,
            _ => false,
        },
    }
}

/// An IP address of either kind.
pub open spec fn is_ip_address(s: Seq<char>) -> bool {
    is_ipv4(s) || is_ipv6(s)
}

/// Whether a text is an IP address.
pub fn ip_address(s: &[char]) -> (b: bool)
    ensures
        b == is_ip_address(s@),
{
    ipv4(s) || ipv6(s)
}

fn decimal_digit(c: char) -> (digit: Option<u32>)
    ensures
        match digit {
            Some(d) => is_decimal_digit(c) && d == c as u32 - '0' as u32,
            None => !is_decimal_digit(c),
        },
{
    let v: u32 = c as u32;
    if 0x30 <= v && v <= 0x39 {
        Some(v - 0x30)
    } else {
        None
    }
}

fn hex_digit(c: char) -> (b: bool)
    ensures
        b == is_hex_digit(c),
{
    let v: u32 = c as u32;
    (0x30 <= v && v <= 0x39) || (0x41 <= v && v <= 0x46) || (0x61 <= v && v <= 0x66)
}

fn octet(s: &[char]) -> (b: bool)
    ensures
        b == is_octet(s@),
{
    if s.len() == 0 || s.len() > 3 || (s.len() > 1 && s[0] == '0') {
        return false;
    }
    let mut value: u32 = 0;
    let mut i: usize = 0;
    while i < s.len()
        invariant
            i <= s.len() <= 3,
            forall|j: int| 0 <= j < i ==> is_decimal_digit(#[trigger] s@[j]),
            value == decimal_value(s@.take(i as int)),
            i == 0 ==> value == 0,
            i == 1 ==> value <= 9,
            i == 2 ==> value <= 99,
            i == 3 ==> value <= 999,
        decreases s.len() - i,
    {
        let c = s[i];
        let digit: u32 = match decimal_digit(c) {
            Some(digit) => digit,
            None => {
                assert(!is_decimal_digit(s@[i as int]));
                return false;
            },
        };
        assert(s@.take(i + 1).drop_last() == s@.take(i as int));
        value = 10 * value + digit;
        i += 1;
    }
    assert(s@.take(i as int) == s@);
    value <= 255
}

fn ipv4(s: &[char]) -> (b: bool)
    ensures
        b == is_ipv4(s@),
{
    let parts = split(s, '.');
    let ghost all = views(parts@);
    if parts.len() != 4 {
        return false;
    }
    let mut i: usize = 0;
    while i < 4
        invariant
            i <= 4,
            parts@.len() == 4,
            all == views(parts@),
            all == pieces(s@, '.'),
            forall|j: int| 0 <= j < i ==> is_octet(#[trigger] all[j]),
        decreases 4 - i,
    {
        if !octet(parts[i]) {
            assert(!is_octet(all[i as int]));
            return false;
        }
        i += 1;
    }
    true
}

fn group(s: &[char]) -> (b: bool)
    ensures
        b == is_group(s@),
{
    if s.len() == 0 || s.len() > 4 {
        return false;
    }
    let mut i: usize = 0;
    while i < s.len()
        invariant
            i <= s.len(),
            forall|j: int| 0 <= j < i ==> is_hex_digit(#[trigger] s@[j]),
        decreases s.len() - i,
    {
        if !hex_digit(s[i]) {
            assert(!is_hex_digit(s@[i as int]));
            return false;
        }
        i += 1;
    }
    true
}

/// How many groups a part of an IPv6 address stands for.
fn groups(s: &[char], ipv4_may_end: bool) -> (count: Option<u64>)
    ensures
        match count {
            Some(n) => group_count(s@, ipv4_may_end) == Some(n as int),
            None => group_count(s@, ipv4_may_end) is None || group_count(s@, ipv4_may_end)->0 > 8,
        },
        count matches Some(n) ==> n <= 8,
{
    if s.len() == 0 {
        return Some(0);
    }
    let parts = split(s, ':');
    let ghost all = views(parts@);
    let last: usize = parts.len() - 1;
    let mut i: usize = 0;
    while i < last
        invariant
            last == parts@.len() - 1,
            i <= last,
            s@.len() > 0,
            all == views(parts@),
            all == pieces(s@, ':'),
            forall|j: int| 0 <= j < i ==> is_group(#[trigger] all[j]),
        decreases last - i,
    {
        if !group(parts[i]) {
            assert(!is_group(all[i as int]));
            return None;
        }
        i += 1;
    }
    assert(all.last() == parts@[last as int]@);
    if group(parts[last]) {
        if last < 8 {
            Some((last + 1) as u64)
        } else {
            None
        }
    } else if ipv4_may_end && ipv4(parts[last]) {
        if last < 7 {
            Some((last + 2) as u64)
        } else {
            None
        }
    } else {
        None
    }
}

fn ipv6(s: &[char]) -> (b: bool)
    ensures
        b == is_ipv6(s@),
{
    let gap = chars_of("::");
    let len: usize = s.len();
    proof {
        reveal_strlit("::");
        lemma_first_occurrence(s@, "::"@);
    }
    match find(s, gap.as_slice()) {
        None => match groups(s, true) {
            Some(count) => count == 8,
            None => false,
        },
        Some(i) => {
            assert(occurs_at(s@, "::"@, i as int));
            let head = slice_subrange(s, 0, i);
            let tail = slice_subrange(s, i + 2, len);
            assert(head@ == s@.take(i as int));
            assert(tail@ == s@.skip(i + 2));
            match (groups(head, false), groups(tail, true)) {
                (Some(h), Some(t)) => h + t <= 7,
                _ => false,
            }
        },
    }
}

/// A digit.
pub open spec fn digit(n: int) -> char {
    (0x30 + n) as char
}

/// A number in decimal digits.
pub open spec fn decimal(n: int) -> Seq<char>
    decreases n,
{
    if n < 10 {
        seq![digit(n)]
    } else {
        decimal(n / 10).push(digit(n % 10))
    }
}

/// Four numbers in decimal digits, with dots between them.
pub open spec fn dotted(a: int, b: int, c: int, d: int) -> Seq<char> {
    joined(seq![decimal(a), decimal(b), decimal(c), decimal(d)], seq!['.'])
}

/// Each part is one to four hexadecimal digits.
pub open spec fn are_hex_groups(parts: Seq<Seq<char>>) -> bool {
    forall|i: int| 0 <= i < parts.len() ==> is_hex_text(#[trigger] parts[i])
}

/// One to four of the characters `0` to `9`, `a` to `f` and `A` to `F`.
pub open spec fn is_hex_text(s: Seq<char>) -> bool {
    &&& 1 <= s.len() <= 4
    &&& forall|i: int|
        0 <= i < s.len() ==> {
            ||| 0x30 <= (#[trigger] s[i]) as u32 <= 0x39
            ||| 0x41 <= s[i] as u32 <= 0x46
            ||| 0x61 <= s[i] as u32 <= 0x66
        }
}

proof fn lemma_decimal(n: int)
    requires
        0 <= n <= 255,
    ensures
        is_octet(decimal(n)),
        decimal_value(decimal(n)) == n,
        forall|i: int| 0 <= i < decimal(n).len() ==> 0x30 <= (#[trigger] decimal(n)[i]) as u32 <= 0x39,
{
    reveal_with_fuel(decimal, 4);
    reveal_with_fuel(decimal_value, 4);
    let s = decimal(n);
    if n < 10 {
        assert(s =~= seq![digit(n)]);
        assert(s.drop_last() =~= Seq::<char>::empty());
    } else if n < 100 {
        assert(s =~= seq![digit(n / 10), digit(n % 10)]);
        assert(s.drop_last() =~= seq![digit(n / 10)]);
        assert(s.drop_last().drop_last() =~= Seq::<char>::empty());
    } else {
        assert(s =~= seq![digit(n / 10 / 10), digit(n / 10 % 10), digit(n % 10)]);
        assert(s.drop_last() =~= seq![digit(n / 10 / 10), digit(n / 10 % 10)]);
        assert(s.drop_last().drop_last() =~= seq![digit(n / 10 / 10)]);
        assert(s.drop_last().drop_last().drop_last() =~= Seq::<char>::empty());
    }
}

proof fn lemma_octet(s: Seq<char>)
    requires
        is_octet(s),
    ensures
        0 <= decimal_value(s) <= 255,
        s == decimal(decimal_value(s)),
{
    reveal_with_fuel(decimal, 4);
    reveal_with_fuel(decimal_value, 4);
    assert(is_decimal_digit(s[0]));
    let a = s[0] as u32 - 0x30;
    assert(digit(a) == s[0]);
    if s.len() == 1 {
        assert(s.drop_last() =~= Seq::<char>::empty());
        assert(s =~= decimal(a));
    } else {
        assert(is_decimal_digit(s[1]));
        let b = s[1] as u32 - 0x30;
        assert(digit(b) == s[1]);
        if s.len() == 2 {
            assert(s.drop_last() =~= seq![s[0]]);
            assert(s.drop_last().drop_last() =~= Seq::<char>::empty());
            let n = 10 * a + b;
            assert(n / 10 == a && n % 10 == b);
            assert(s =~= decimal(n));
        } else {
            assert(is_decimal_digit(s[2]));
            let c = s[2] as u32 - 0x30;
            assert(digit(c) == s[2]);
            assert(s.drop_last() =~= seq![s[0], s[1]]);
            assert(s.drop_last().drop_last() =~= seq![s[0]]);
            assert(s.drop_last().drop_last().drop_last() =~= Seq::<char>::empty());
            let n = 10 * (10 * a + b) + c;
            assert(n / 10 == 10 * a + b && n % 10 == c);
            assert((n / 10) / 10 == a && (n / 10) % 10 == b);
            assert(s =~= decimal(n));
        }
    }
}

/// Every four numbers from 0 to 255, written with dots between them, are an IP address.
pub proof fn four_octets_are_an_address(a: int, b: int, c: int, d: int)
    requires
        0 <= a <= 255,
        0 <= b <= 255,
        0 <= c <= 255,
        0 <= d <= 255,
    ensures
        is_ipv4(dotted(a, b, c, d)),
        is_ip_address(dotted(a, b, c, d)),
{
    let parts = seq![decimal(a), decimal(b), decimal(c), decimal(d)];
    lemma_decimal(a);
    lemma_decimal(b);
    lemma_decimal(c);
    lemma_decimal(d);
    assert forall|i: int| 0 <= i < parts.len() implies !(#[trigger] parts[i]).contains('.') by {
        if parts[i].contains('.') {
            let k = choose|k: int| 0 <= k < parts[i].len() && parts[i][k] == '.';
            assert(0x30 <= parts[i][k] as u32);
        }
    }
    joined_parts_are_cut_again(parts, '.');
}

/// An IPv4 address is four numbers from 0 to 255, written with dots between them, and nothing else
/// is one.
pub proof fn ipv4_address_is_four_octets(s: Seq<char>) -> (octets: (int, int, int, int))
    requires
        is_ipv4(s),
    ensures
        0 <= octets.0 <= 255,
        0 <= octets.1 <= 255,
        0 <= octets.2 <= 255,
        0 <= octets.3 <= 255,
        s == dotted(octets.0, octets.1, octets.2, octets.3),
{
    let parts = pieces(s, '.');
    pieces_make_up_the_text(s, '.');
    assert(is_octet(parts[0]) && is_octet(parts[1]) && is_octet(parts[2]) && is_octet(parts[3]));
    lemma_octet(parts[0]);
    lemma_octet(parts[1]);
    lemma_octet(parts[2]);
    lemma_octet(parts[3]);
    let (a, b, c, d) = (
        decimal_value(parts[0]),
        decimal_value(parts[1]),
        decimal_value(parts[2]),
        decimal_value(parts[3]),
    );
    assert(parts =~= seq![decimal(a), decimal(b), decimal(c), decimal(d)]);
    (a, b, c, d)
}

/// No two colons stand side by side, and none at either end.
spec fn has_lone_colons(s: Seq<char>) -> bool {
    &&& s.len() > 0 ==> s.first() != ':' && s.last() != ':'
    &&& forall|i: int| 0 <= i < s.len() - 1 && (#[trigger] s[i]) == ':' ==> s[i + 1] != ':'
}

proof fn lemma_lone_colons(parts: Seq<Seq<char>>)
    requires
        forall|i: int|
            0 <= i < parts.len() ==> (#[trigger] parts[i]).len() > 0 && !parts[i].contains(':'),
    ensures
        has_lone_colons(joined(parts, seq![':'])),
        parts.len() > 0 ==> joined(parts, seq![':']).len() > 0,
    decreases parts.len(),
{
    let whole = joined(parts, seq![':']);
    if parts.len() == 1 {
        let part = parts[0];
        assert(whole == part);
        assert forall|i: int| 0 <= i < part.len() implies #[trigger] part[i] != ':' by {
            if part[i] == ':' {
                assert(part.contains(':'));
            }
        }
    } else if parts.len() > 1 {
        let init = parts.drop_last();
        let last = parts.last();
        assert forall|i: int| 0 <= i < init.len() implies (#[trigger] init[i]).len() > 0
            && !init[i].contains(':') by {
            assert(init[i] == parts[i]);
        }
        lemma_lone_colons(init);
        let head = joined(init, seq![':']);
        assert(last == parts[parts.len() - 1]);
        assert forall|i: int| 0 <= i < last.len() implies #[trigger] last[i] != ':' by {
            if last[i] == ':' {
                assert(last.contains(':'));
            }
        }
        let n = head.len() as int;
        assert(whole.first() == head.first());
        assert(whole.last() == last.last());
        assert forall|i: int| 0 <= i < whole.len() - 1 && (#[trigger] whole[i]) == ':' implies whole[i
            + 1] != ':' by {
            if i < n - 1 {
                assert(head[i] == whole[i] && head[i + 1] == whole[i + 1]);
            } else if i == n - 1 {
                assert(head.last() == whole[i]);
            } else if i == n {
                assert(whole[i + 1] == last[0]);
            } else {
                assert(whole[i] == last[i - n - 1]);
            }
        }
    }
}

proof fn lemma_no_gap(s: Seq<char>)
    requires
        has_lone_colons(s),
    ensures
        first_occurrence(s, "::"@) is None,
{
    reveal_strlit("::");
    lemma_first_occurrence(s, "::"@);
    if let Some(i) = first_occurrence(s, "::"@) {
        let part = s.subrange(i, i + 2);
        assert(part[0] == ':' && part[1] == ':');
        assert(s[i] == ':' && s[i + 1] == ':');
    }
}

proof fn lemma_gap(head: Seq<char>, gap: Seq<char>, tail: Seq<char>)
    requires
        gap == seq![':', ':'],
        head.len() > 0 ==> head.last() != ':',
        forall|i: int| 0 <= i < head.len() - 1 && (#[trigger] head[i]) == ':' ==> head[i + 1] != ':',
    ensures
        first_occurrence(head + gap + tail, gap) == Some(head.len() as int),
    decreases head.len(),
{
    let s = head + gap + tail;
    if head.len() == 0 {
        assert(s.subrange(0, 2) =~= gap);
    } else {
        let less = head.drop_first();
        assert(s[0] == head[0]);
        assert(!gap.is_prefix_of(s)) by {
            if gap.is_prefix_of(s) {
                assert(s.subrange(0, 2)[0] == ':' && s.subrange(0, 2)[1] == ':');
                if head.len() > 1 {
                    assert(s[1] == head[1]);
                } else {
                    assert(head.last() == ':');
                }
            }
        }
        assert(s.drop_first() =~= less + gap + tail);
        assert forall|i: int| 0 <= i < less.len() - 1 && (#[trigger] less[i]) == ':' implies less[i
            + 1] != ':' by {
            assert(head[i + 1] == ':');
        }
        if less.len() > 0 {
            assert(less.last() == head.last());
        }
        lemma_gap(less, gap, tail);
    }
}

proof fn lemma_hex_digit(c: char)
    ensures
        is_hex_digit(c) <==> {
            ||| 0x30 <= c as u32 <= 0x39
            ||| 0x41 <= c as u32 <= 0x46
            ||| 0x61 <= c as u32 <= 0x66
        },
{
}

proof fn lemma_hex_text(s: Seq<char>)
    ensures
        is_group(s) == is_hex_text(s),
        is_hex_text(s) ==> !s.contains(':') && !s.contains('.'),
{
    if is_hex_text(s) {
        assert forall|i: int| 0 <= i < s.len() implies is_hex_digit(#[trigger] s[i]) by {
            lemma_hex_digit(s[i]);
        }
        if s.contains(':') {
            let k = choose|k: int| 0 <= k < s.len() && s[k] == ':';
            assert(s[k] == ':');
        }
        if s.contains('.') {
            let k = choose|k: int| 0 <= k < s.len() && s[k] == '.';
            assert(s[k] == '.');
        }
    }
    if is_group(s) {
        assert forall|i: int| 0 <= i < s.len() implies {
            ||| 0x30 <= (#[trigger] s[i]) as u32 <= 0x39
            ||| 0x41 <= s[i] as u32 <= 0x46
            ||| 0x61 <= s[i] as u32 <= 0x66
        } by {
            lemma_hex_digit(s[i]);
        }
    }
}

/// The parts of an IPv6 address: hexadecimal groups, after which an IPv4 address may stand for the
/// last two.
pub open spec fn listed(groups: Seq<Seq<char>>, ipv4: Option<(int, int, int, int)>) -> Seq<
    Seq<char>,
> {
    match ipv4 {
        Some(o) => groups.push(dotted(o.0, o.1, o.2, o.3)),
        None => groups,
    }
}

/// How many groups these parts stand for.
pub open spec fn listed_count(groups: Seq<Seq<char>>, ipv4: Option<(int, int, int, int)>) -> int {
    groups.len() + (if ipv4 is Some {
        2int
    } else {
        0int
    })
}

/// Four numbers from 0 to 255, where there are any.
pub open spec fn are_octets(ipv4: Option<(int, int, int, int)>) -> bool {
    ipv4 matches Some(o) ==> 0 <= o.0 <= 255 && 0 <= o.1 <= 255 && 0 <= o.2 <= 255 && 0 <= o.3
        <= 255
}

proof fn lemma_dotted(a: int, b: int, c: int, d: int)
    requires
        0 <= a <= 255,
        0 <= b <= 255,
        0 <= c <= 255,
        0 <= d <= 255,
    ensures
        dotted(a, b, c, d).len() > 0,
        dotted(a, b, c, d).contains('.'),
        !dotted(a, b, c, d).contains(':'),
{
    lemma_decimal(a);
    lemma_decimal(b);
    lemma_decimal(c);
    lemma_decimal(d);
    let s = dotted(a, b, c, d);
    let parts = seq![decimal(a), decimal(b), decimal(c), decimal(d)];
    lemma_joined_front(parts, seq!['.']);
    let rest1 = parts.drop_first();
    lemma_joined_front(rest1, seq!['.']);
    let rest2 = rest1.drop_first();
    lemma_joined_front(rest2, seq!['.']);
    let rest3 = rest2.drop_first();
    assert(rest3.len() == 1);
    assert(rest3[0] == decimal(d));
    let t2 = decimal(c) + seq!['.'] + decimal(d);
    let t1 = decimal(b) + seq!['.'] + t2;
    assert(s == decimal(a) + seq!['.'] + t1);
    assert(s[decimal(a).len() as int] == '.');
    if s.contains(':') {
        let k = choose|k: int| 0 <= k < s.len() && s[k] == ':';
        let n1 = decimal(a).len() as int;
        if k < n1 {
            assert(decimal(a)[k] == ':');
        } else if k > n1 {
            let k1 = k - n1 - 1;
            assert(t1[k1] == ':');
            let n2 = decimal(b).len() as int;
            if k1 < n2 {
                assert(decimal(b)[k1] == ':');
            } else if k1 > n2 {
                let k2 = k1 - n2 - 1;
                assert(t2[k2] == ':');
                let n3 = decimal(c).len() as int;
                if k2 < n3 {
                    assert(decimal(c)[k2] == ':');
                } else if k2 > n3 {
                    assert(decimal(d)[k2 - n3 - 1] == ':');
                }
            }
        }
    }
}

proof fn lemma_listed(
    groups: Seq<Seq<char>>,
    ipv4: Option<(int, int, int, int)>,
    ipv4_may_end: bool,
)
    requires
        are_hex_groups(groups),
        are_octets(ipv4),
        ipv4 is Some ==> ipv4_may_end,
    ensures
        group_count(joined(listed(groups, ipv4), seq![':']), ipv4_may_end) == Some(
            listed_count(groups, ipv4),
        ),
        has_lone_colons(joined(listed(groups, ipv4), seq![':'])),
{
    let parts = listed(groups, ipv4);
    let whole = joined(parts, seq![':']);
    if let Some(o) = ipv4 {
        lemma_dotted(o.0, o.1, o.2, o.3);
        four_octets_are_an_address(o.0, o.1, o.2, o.3);
        lemma_hex_text(parts.last());
    }
    assert forall|i: int| 0 <= i < parts.len() implies (#[trigger] parts[i]).len() > 0
        && !parts[i].contains(':') by {
        if i < groups.len() {
            assert(parts[i] == groups[i]);
            lemma_hex_text(groups[i]);
        }
    }
    lemma_lone_colons(parts);
    if parts.len() > 0 {
        joined_parts_are_cut_again(parts, ':');
        assert forall|i: int| 0 <= i < parts.len() - 1 implies is_group(#[trigger] parts[i]) by {
            assert(parts[i] == groups[i]);
            lemma_hex_text(groups[i]);
        }
        if ipv4 is None {
            assert(parts.last() == groups[groups.len() - 1]);
            lemma_hex_text(parts.last());
        }
    }
}

/// Eight groups with colons between them are an IP address, the last two of them as an IPv4
/// address if need be.
pub proof fn eight_groups_are_an_address(
    groups: Seq<Seq<char>>,
    ipv4: Option<(int, int, int, int)>,
)
    requires
        are_hex_groups(groups),
        are_octets(ipv4),
        listed_count(groups, ipv4) == 8,
    ensures
        is_ip_address(joined(listed(groups, ipv4), seq![':'])),
{
    lemma_listed(groups, ipv4, true);
    lemma_no_gap(joined(listed(groups, ipv4), seq![':']));
}

/// Up to seven groups, with `::` before, between or after them, are an IP address.
pub proof fn gap_stands_for_groups(
    head: Seq<Seq<char>>,
    tail: Seq<Seq<char>>,
    ipv4: Option<(int, int, int, int)>,
)
    requires
        are_hex_groups(head),
        are_hex_groups(tail),
        are_octets(ipv4),
        head.len() + listed_count(tail, ipv4) <= 7,
    ensures
        is_ip_address(
            joined(head, seq![':']) + seq![':', ':'] + joined(listed(tail, ipv4), seq![':']),
        ),
{
    let first = joined(head, seq![':']);
    let second = joined(listed(tail, ipv4), seq![':']);
    let s = first + "::"@ + second;
    reveal_strlit("::");
    assert("::"@ =~= seq![':', ':']);
    lemma_listed(head, None, false);
    lemma_listed(tail, ipv4, true);
    lemma_gap(first, "::"@, second);
    let n = first.len() as int;
    assert(s.take(n) =~= first);
    assert(s.skip(n + 2) =~= second);
}

/// What the parts of an IPv6 address are, where a text has as many as `group_count` says.
proof fn lemma_counted(s: Seq<char>, ipv4_may_end: bool) -> (parts: (
    Seq<Seq<char>>,
    Option<(int, int, int, int)>,
))
    requires
        group_count(s, ipv4_may_end) is Some,
    ensures
        are_hex_groups(parts.0),
        are_octets(parts.1),
        parts.1 is Some ==> ipv4_may_end,
        s == joined(listed(parts.0, parts.1), seq![':']),
        group_count(s, ipv4_may_end) == Some(listed_count(parts.0, parts.1)),
{
    let all = pieces(s, ':');
    if s.len() == 0 {
        assert(s =~= joined(listed(Seq::<Seq<char>>::empty(), None), seq![':']));
        (Seq::empty(), None)
    } else {
        pieces_make_up_the_text(s, ':');
        assert forall|i: int| 0 <= i < all.len() - 1 implies is_hex_text(#[trigger] all[i]) by {
            assert(is_group(all[i]));
            lemma_hex_text(all[i]);
        }
        lemma_hex_text(all.last());
        if is_group(all.last()) {
            assert(all.last() == all[all.len() - 1]);
            assert(are_hex_groups(all));
            (all, None)
        } else {
            let o = ipv4_address_is_four_octets(all.last());
            let init = all.drop_last();
            assert forall|i: int| 0 <= i < init.len() implies is_hex_text(#[trigger] init[i]) by {
                assert(init[i] == all[i]);
            }
            assert(listed(init, Some(o)) =~= all);
            (init, Some(o))
        }
    }
}

/// An IPv6 address is eight groups with colons between them, or fewer with one `::`; nothing else
/// is one.
pub proof fn ipv6_address_is_groups(s: Seq<char>) -> (parts: (
    Seq<Seq<char>>,
    Option<Seq<Seq<char>>>,
    Option<(int, int, int, int)>,
))
    requires
        is_ipv6(s),
    ensures
        are_hex_groups(parts.0),
        are_octets(parts.2),
        match parts.1 {
            None => listed_count(parts.0, parts.2) == 8 && s == joined(
                listed(parts.0, parts.2),
                seq![':'],
            ),
            Some(tail) => are_hex_groups(tail) && parts.0.len() + listed_count(tail, parts.2) <= 7
                && s == joined(parts.0, seq![':']) + seq![':', ':'] + joined(
                listed(tail, parts.2),
                seq![':'],
            ),
        },
{
    reveal_strlit("::");
    lemma_first_occurrence(s, "::"@);
    match first_occurrence(s, "::"@) {
        None => {
            let (groups, ipv4) = lemma_counted(s, true);
            (groups, None, ipv4)
        },
        Some(i) => {
            let (head, none) = lemma_counted(s.take(i), false);
            let (tail, ipv4) = lemma_counted(s.skip(i + 2), true);
            assert(s.subrange(i, i + 2) =~= seq![':', ':']);
            assert(s =~= s.take(i) + s.subrange(i, i + 2) + s.skip(i + 2));
            (head, Some(tail), ipv4)
        },
    }
}

/// An IP address is an IPv4 or an IPv6 address.
pub proof fn addresses_are_of_two_versions(s: Seq<char>)
    ensures
        is_ip_address(s) <==> is_ipv4(s) || is_ipv6(s),
{
}

} // verus!
