//! Telling a host from a port in what the user typed (`host`, `host:port`,
//! `[v6]:port`, a bare IPv6 address), and the address family to resolve.
//! Everything is stated over the characters of the text.

use crate::error::PingError;
use vstd::prelude::*;
use vstd::string::{StrSliceExecFns, StringExecFns};

verus! {

/// The port a Minecraft server listens on unless told otherwise.
pub const MINECRAFT_DEFAULT_PORT: u16 = 25565;

/// Which addresses a lookup may return.
#[derive(Clone, Copy, Debug, PartialEq, Eq)]
pub enum IpFamily {
    Any,
    V4,
    V6,
}

/// The family of one address.
#[derive(Clone, Copy, Debug, PartialEq, Eq)]
pub enum AddrKind {
    V4,
    V6,
}

/// The address family a lookup asks the resolver for.
#[derive(Clone, Copy, Debug, PartialEq, Eq)]
pub enum FamilyHint {
    /// Any family (`AF_UNSPEC`).
    Unspecified,
    /// IPv4 only (`AF_INET`).
    Inet,
    /// IPv6 only (`AF_INET6`).
    Inet6,
}

/// What a host lookup asks the resolver for, besides a stream socket and a
/// numeric port.
#[derive(Clone, Copy, Debug, PartialEq, Eq)]
pub struct LookupHints {
    /// The family of the addresses asked for.
    pub family: FamilyHint,
    /// Whether only families that the machine has an address of are asked
    /// for (`AI_ADDRCONFIG`).
    pub address_config: bool,
}

impl IpFamily {
    /// The hints a lookup gives the resolver: the family asked for, and,
    /// where any family will do, only those the machine has an address of.
    pub fn lookup_hints(self) -> (r: LookupHints)
        ensures
            r.family == (match self {
                IpFamily::Any => FamilyHint::Unspecified,
                IpFamily::V4 => FamilyHint::Inet,
                IpFamily::V6 => FamilyHint::Inet6,
            }),
            r.address_config == (self == IpFamily::Any),
    {
        let family = match self {
            IpFamily::Any => FamilyHint::Unspecified,
            IpFamily::V4 => FamilyHint::Inet,
            IpFamily::V6 => FamilyHint::Inet6,
        };
        let address_config = match self {
            IpFamily::Any => true,
            _ => false,
        };
        LookupHints { family, address_config }
    }

    /// Whether an address of kind `addr` may be returned.
    pub fn matches(self, addr: AddrKind) -> (r: bool)
        ensures
            r == (self == IpFamily::Any || (self == IpFamily::V4 && addr == AddrKind::V4) || (self
                == IpFamily::V6 && addr == AddrKind::V6)),
    {
        match (self, addr) {
            (IpFamily::Any, _) => true,
            (IpFamily::V4, AddrKind::V4) => true,
            (IpFamily::V6, AddrKind::V6) => true,
            _ => false,
        }
    }
}

/// An ASCII decimal digit.
pub open spec fn is_digit(c: char) -> bool {
    '0' <= c && c <= '9'
}

/// Every character is an ASCII decimal digit (true of no characters at all).
pub open spec fn all_digits(s: Seq<char>) -> bool {
    forall|i: int| 0 <= i < s.len() ==> is_digit(#[trigger] s[i])
}

/// The first position at or after `i` that holds `c`.
pub open spec fn find_from(s: Seq<char>, c: char, i: nat) -> Option<nat>
    decreases s.len() - i,
{
    if i >= s.len() {
        None
    } else if s[i as int] == c {
        Some(i)
    } else {
        find_from(s, c, i + 1)
    }
}

/// The first position that holds `c`.
pub open spec fn find_char(s: Seq<char>, c: char) -> Option<nat> {
    find_from(s, c, 0)
}

/// The last position before `j` that holds `c`.
pub open spec fn rfind_before(s: Seq<char>, c: char, j: nat) -> Option<nat>
    decreases j,
{
    if j == 0 {
        None
    } else if s[j - 1] == c {
        Some((j - 1) as nat)
    } else {
        rfind_before(s, c, (j - 1) as nat)
    }
}

/// The last position that holds `c`.
pub open spec fn rfind_char(s: Seq<char>, c: char) -> Option<nat> {
    rfind_before(s, c, s.len())
}

/// How many of the first `j` characters are `c`.
pub open spec fn count_before(s: Seq<char>, c: char, j: nat) -> nat
    decreases j,
{
    if j == 0 {
        0
    } else {
        count_before(s, c, (j - 1) as nat) + if s[j - 1] == c {
            1nat
        } else {
            0nat
        }
    }
}

/// How many characters are `c`.
pub open spec fn count_char(s: Seq<char>, c: char) -> nat {
    count_before(s, c, s.len())
}

/// The number written by the digits `d`.
pub open spec fn digits_value(d: Seq<char>) -> nat
    decreases d.len(),
{
    if d.len() == 0 {
        0
    } else {
        digits_value(d.drop_last()) * 10 + ((d.last() as u32) - ('0' as u32)) as nat
    }
}

/// What parsing `s` as a `u16` gives, as the standard library documents it
/// for unsigned integers: an optional `+`, then one or more ASCII digits
/// whose value is at most 65535.
pub open spec fn spec_parse_u16(s: Seq<char>) -> Option<u16> {
    let d = if s.len() > 0 && s[0] == '+' {
        s.drop_first()
    } else {
        s
    };
    if d.len() > 0 && all_digits(d) && digits_value(d) <= 65535 {
        Some(digits_value(d) as u16)
    } else {
        None
    }
}

/// The host inside `[host]:digits`, if `s` has that form (the digits may be
/// none; the host ends at the first `]`).
pub open spec fn spec_strip_bracketed_port(s: Seq<char>) -> Option<Seq<char>> {
    if s.len() == 0 || s[0] != '[' {
        None
    } else {
        match find_char(s, ']') {
            None => None,
            Some(end) => {
                let rest = s.subrange(end + 1int, s.len() as int);
                if rest.len() > 0 && rest[0] == ':' && all_digits(rest.drop_first()) {
                    Some(s.subrange(1, end as int))
                } else {
                    None
                }
            },
        }
    }
}

/// `s` without a trailing port: the bracketed host of `[host]:digits`; else,
/// where `s` has at most one colon and only digits after it, what comes
/// before that colon; else `s` itself.
pub open spec fn spec_strip_port(s: Seq<char>) -> Seq<char> {
    match spec_strip_bracketed_port(s) {
        Some(host) => host,
        None => if count_char(s, ':') <= 1 {
            match rfind_char(s, ':') {
                Some(i) => if all_digits(s.subrange(i + 1int, s.len() as int)) {
                    s.subrange(0, i as int)
                } else {
                    s
                },
                None => s,
            }
        } else {
            s
        },
    }
}

/// How `with_default_port` treats `host`.
pub enum PortForm {
    /// Kept as it is.
    Kept,
    /// The default port is appended.
    PortAppended,
    /// Bracketed, then the default port appended (a bare IPv6 address).
    Bracketed,
}

/// Which form `host` takes: kept where it is empty, where it is bracketed and
/// not exactly `[...]`, or where it has one colon; the port appended to
/// `[...]` and to a host with no colon; bracketed where it has two colons or
/// more.
pub open spec fn spec_port_form(s: Seq<char>) -> PortForm {
    if s.len() == 0 {
        PortForm::Kept
    } else if s[0] == '[' {
        match find_char(s, ']') {
            Some(end) => {
                let rest = s.subrange(end + 1int, s.len() as int);
                if rest.len() > 0 && rest[0] == ':' && all_digits(rest.drop_first()) {
                    PortForm::Kept
                } else if rest.len() == 0 {
                    PortForm::PortAppended
                } else {
                    PortForm::Kept
                }
            },
            None => PortForm::Kept,
        }
    } else if count_char(s, ':') == 0 {
        PortForm::PortAppended
    } else if count_char(s, ':') == 1 {
        PortForm::Kept
    } else {
        PortForm::Bracketed
    }
}

/// The host with the default port appended where it names none.
pub open spec fn spec_with_default_port(s: Seq<char>) -> Seq<char> {
    match spec_port_form(s) {
        PortForm::Kept => s,
        PortForm::PortAppended => s + ":25565"@,
        PortForm::Bracketed => "["@ + s + "]:25565"@,
    }
}

/// Splitting `host:port` or `[host]:port` into its host and its port.
pub open spec fn spec_split_host_port(s: Seq<char>) -> Result<(Seq<char>, u16), PingError> {
    if s.len() > 0 && s[0] == '[' {
        match find_char(s, ']') {
            None => Err(PingError::InvalidSocketAddress),
            Some(end) => {
                let rest = s.subrange(end + 1int, s.len() as int);
                if rest.len() == 0 || rest[0] != ':' {
                    Err(PingError::InvalidSocketAddress)
                } else {
                    match spec_parse_u16(rest.drop_first()) {
                        Some(port) => Ok((s.subrange(1, end as int), port)),
                        None => Err(PingError::InvalidPort),
                    }
                }
            },
        }
    } else {
        match rfind_char(s, ':') {
            None => Err(PingError::InvalidSocketAddress),
            Some(i) => if i == 0 {
                Err(PingError::InvalidSocketAddress)
            } else {
                match spec_parse_u16(s.subrange(i + 1int, s.len() as int)) {
                    Some(port) => Ok((s.subrange(0, i as int), port)),
                    None => Err(PingError::InvalidPort),
                }
            },
        }
    }
}

proof fn lemma_find_from(s: Seq<char>, c: char, i: nat)
    ensures
        match find_from(s, c, i) {
            Some(k) => i <= k < s.len() && s[k as int] == c && forall|m: int|
                i <= m < k ==> s[m] != c,
            None => forall|m: int| i <= m < s.len() ==> s[m] != c,
        },
    decreases s.len() - i,
{
    if i < s.len() {
        lemma_find_from(s, c, i + 1);
    }
}

proof fn lemma_rfind_before(s: Seq<char>, c: char, j: nat)
    requires
        j <= s.len(),
    ensures
        match rfind_before(s, c, j) {
            Some(k) => k < j && s[k as int] == c && forall|m: int| k < m < j ==> s[m] != c,
            None => forall|m: int| 0 <= m < j ==> s[m] != c,
        },
    decreases j,
{
    if j > 0 {
        lemma_rfind_before(s, c, (j - 1) as nat);
    }
}

proof fn lemma_find_is(s: Seq<char>, c: char, k: nat)
    requires
        k < s.len(),
        s[k as int] == c,
        forall|m: int| 0 <= m < k ==> s[m] != c,
    ensures
        find_char(s, c) == Some(k),
{
    lemma_find_from(s, c, 0);
}

proof fn lemma_find_none(s: Seq<char>, c: char)
    requires
        forall|m: int| 0 <= m < s.len() ==> s[m] != c,
    ensures
        find_char(s, c) is None,
{
    lemma_find_from(s, c, 0);
}

proof fn lemma_rfind_is(s: Seq<char>, c: char, k: nat)
    requires
        k < s.len(),
        s[k as int] == c,
        forall|m: int| k < m < s.len() ==> s[m] != c,
    ensures
        rfind_char(s, c) == Some(k),
{
    lemma_rfind_before(s, c, s.len());
}

proof fn lemma_count_zero(s: Seq<char>, c: char, j: nat)
    requires
        j <= s.len(),
        count_before(s, c, j) == 0,
    ensures
        forall|m: int| 0 <= m < j ==> s[m] != c,
    decreases j,
{
    if j > 0 {
        lemma_count_zero(s, c, (j - 1) as nat);
    }
}

proof fn lemma_default_port_value()
    ensures
        spec_parse_u16("25565"@) == Some(25565u16),
{
    reveal_strlit("25565");
    let d = seq!['2', '5', '5', '6', '5'];
    assert("25565"@ =~= d);
    let d1 = seq!['2'];
    let d2 = seq!['2', '5'];
    let d3 = seq!['2', '5', '5'];
    let d4 = seq!['2', '5', '5', '6'];
    assert(d1.drop_last() =~= Seq::<char>::empty());
    assert(d2.drop_last() =~= d1);
    assert(d3.drop_last() =~= d2);
    assert(d4.drop_last() =~= d3);
    assert(d.drop_last() =~= d4);
    assert(('0' as u32) == 48 && ('2' as u32) == 50 && ('5' as u32) == 53 && ('6' as u32) == 54);
    assert(digits_value(Seq::<char>::empty()) == 0);
    assert(d1.last() == '2');
    assert(digits_value(d1) == 2);
    assert(digits_value(d2) == 25);
    assert(digits_value(d3) == 255);
    assert(digits_value(d4) == 2556);
    assert(digits_value(d) == 25565);
    assert(all_digits(d));
}

/// A host that names no port gets the default one, and splitting the result
/// gives the host back with port 25565: a name without colons, and a bare
/// IPv6 address (two colons or more, no `]`).
pub proof fn lemma_default_port_splits(h: Seq<char>)
    requires
        h.len() > 0,
        h[0] != '[',
        count_char(h, ':') == 0 || (count_char(h, ':') >= 2 && forall|m: int|
            0 <= m < h.len() ==> h[m] != ']'),
    ensures
        spec_split_host_port(spec_with_default_port(h)) == Ok::<(Seq<char>, u16), PingError>(
            (h, 25565u16),
        ),
{
    reveal_strlit(":25565");
    reveal_strlit("25565");
    reveal_strlit("]:25565");
    reveal_strlit("[");
    lemma_default_port_value();
    if count_char(h, ':') == 0 {
        lemma_count_zero(h, ':', h.len());
        let s = h + ":25565"@;
        assert(s[0] == h[0]);
        lemma_rfind_is(s, ':', h.len());
        assert(s.subrange(h.len() + 1int, s.len() as int) =~= "25565"@);
        assert(s.subrange(0, h.len() as int) =~= h);
    } else {
        let s = "["@ + h + "]:25565"@;
        assert(s[0] == '[');
        lemma_find_is(s, ']', h.len() + 1);
        let rest = s.subrange(h.len() + 2int, s.len() as int);
        assert(rest =~= ":25565"@);
        assert(rest.drop_first() =~= "25565"@);
        assert(s.subrange(1, h.len() + 1int) =~= h);
    }
}

/// The ASCII digit for `d` (below ten).
pub open spec fn digit_char(d: nat) -> char {
    (d + 48) as char
}

/// The decimal digits of `n`, without leading zeros (`0` for zero), as
/// `{}` formats an unsigned integer.
pub open spec fn decimal(n: nat) -> Seq<char>
    decreases n,
{
    if n < 10 {
        seq![digit_char(n)]
    } else {
        decimal(n / 10).push(digit_char(n % 10))
    }
}

proof fn lemma_decimal(n: nat)
    ensures
        decimal(n).len() > 0,
        all_digits(decimal(n)),
        digits_value(decimal(n)) == n,
    decreases n,
{
    let d = decimal(n);
    assert(('0' as u32) == 48);
    if n >= 10 {
        lemma_decimal(n / 10);
        assert((digit_char(n % 10) as u32) == n % 10 + 48);
        assert(d.last() == digit_char(n % 10));
        assert(d.drop_last() =~= decimal(n / 10));
        assert(n == (n / 10) * 10 + n % 10);
        assert(digits_value(d) == digits_value(d.drop_last()) * 10 + ((d.last() as u32) - ('0' as u32)) as nat);
        assert(((d.last() as u32) - ('0' as u32)) as nat == n % 10);
    } else {
        assert((digit_char(n) as u32) == n + 48);
        assert(d.last() == digit_char(n));
        assert(d.drop_last() =~= Seq::<char>::empty());
        assert(digits_value(d) == digits_value(d.drop_last()) * 10 + ((d.last() as u32) - ('0' as u32)) as nat);
    }
}

/// Parsing the decimal digits of a port gives the port back.
pub proof fn lemma_parse_decimal(p: u16)
    ensures
        spec_parse_u16(decimal(p as nat)) == Some(p),
        forall|m: int| 0 <= m < decimal(p as nat).len() ==> is_digit(#[trigger] decimal(p as nat)[m]),
{
    lemma_decimal(p as nat);
}

/// A host and a port joined as `host:port` are split back into that host and
/// that port, for every port and every host that does not start with `[`
/// (colons in the host are allowed: the port follows the last one); and so
/// is `[host]:port` where the host holds no `]`.
pub proof fn lemma_split_joined(h: Seq<char>, p: u16)
    requires
        h.len() > 0,
        h[0] != '[',
    ensures
        spec_split_host_port(h + ":"@ + decimal(p as nat)) == Ok::<(Seq<char>, u16), PingError>(
            (h, p),
        ),
        (forall|m: int| 0 <= m < h.len() ==> h[m] != ']') ==> spec_split_host_port(
            "["@ + h + "]:"@ + decimal(p as nat),
        ) == Ok::<(Seq<char>, u16), PingError>((h, p)),
{
    reveal_strlit(":");
    reveal_strlit("[");
    reveal_strlit("]:");
    lemma_parse_decimal(p);
    let d = decimal(p as nat);
    let s = h + ":"@ + d;
    assert(s[0] == h[0]);
    assert(s[h.len() as int] == ':');
    assert forall|m: int| h.len() < m < s.len() implies s[m] != ':' by {
        assert(s[m] == d[m - h.len() - 1]);
        assert(is_digit(d[m - h.len() - 1]));
    }
    lemma_rfind_is(s, ':', h.len());
    assert(s.subrange(h.len() + 1int, s.len() as int) =~= d);
    assert(s.subrange(0, h.len() as int) =~= h);
    if forall|m: int| 0 <= m < h.len() ==> h[m] != ']' {
        let t = "["@ + h + "]:"@ + d;
        assert(t[0] == '[');
        assert(t[h.len() + 1int] == ']');
        assert forall|m: int| 0 <= m < h.len() + 1 implies t[m] != ']' by {
            if m > 0 {
                assert(t[m] == h[m - 1]);
            }
        }
        lemma_find_is(t, ']', h.len() + 1);
        let rest = t.subrange(h.len() + 2int, t.len() as int);
        assert(rest[0] == ':');
        assert(rest.drop_first() =~= d);
        assert(t.subrange(1, h.len() + 1int) =~= h);
    }
}

proof fn lemma_count_concat(a: Seq<char>, b: Seq<char>, c: char, j: nat)
    requires
        j <= b.len(),
    ensures
        count_before(a + b, c, a.len() + j) == count_char(a, c) + count_before(b, c, j),
    decreases j,
{
    if j == 0 {
        assert forall|k: nat| k <= a.len() implies count_before(a + b, c, k) == count_before(a, c, k) by {
            lemma_count_prefix(a, b, c, k);
        }
    } else {
        lemma_count_concat(a, b, c, (j - 1) as nat);
        assert((a + b)[a.len() + j - 1] == b[j - 1]);
    }
}

proof fn lemma_count_prefix(a: Seq<char>, b: Seq<char>, c: char, k: nat)
    requires
        k <= a.len(),
    ensures
        count_before(a + b, c, k) == count_before(a, c, k),
    decreases k,
{
    if k > 0 {
        lemma_count_prefix(a, b, c, (k - 1) as nat);
        assert((a + b)[k - 1] == a[k - 1]);
    }
}

proof fn lemma_count_absent(s: Seq<char>, c: char, j: nat)
    requires
        j <= s.len(),
        forall|m: int| 0 <= m < j ==> s[m] != c,
    ensures
        count_before(s, c, j) == 0,
    decreases j,
{
    if j > 0 {
        lemma_count_absent(s, c, (j - 1) as nat);
    }
}

proof fn lemma_default_suffix_count()
    ensures
        count_char(":25565"@, ':') == 1,
{
    reveal_strlit(":25565");
    let t = ":25565"@;
    assert(t =~= seq![':', '2', '5', '5', '6', '5']);
    assert(t[0] == ':' && t[1] == '2' && t[2] == '5' && t[3] == '5' && t[4] == '6' && t[5] == '5');
    assert(count_before(t, ':', 0) == 0);
    assert(count_before(t, ':', 1) == 1);
    assert(count_before(t, ':', 2) == 1);
    assert(count_before(t, ':', 3) == 1);
    assert(count_before(t, ':', 4) == 1);
    assert(count_before(t, ':', 5) == 1);
    assert(count_before(t, ':', 6) == 1);
}

/// Adding the default port is idempotent: what `with_default_port` returns
/// is kept as it is by a second call. It is the host itself, the host with
/// `:25565` appended, or the host bracketed with `:25565` appended; a
/// non-empty host with no colon and no leading `[` gets `:25565`.
pub proof fn lemma_default_port_idempotent(h: Seq<char>)
    ensures
        spec_with_default_port(spec_with_default_port(h)) == spec_with_default_port(h),
        spec_with_default_port(h) == h || spec_with_default_port(h) == h + ":25565"@
            || spec_with_default_port(h) == "["@ + h + "]:25565"@,
        h.len() > 0 && h[0] != '[' && (forall|m: int| 0 <= m < h.len() ==> h[m] != ':')
            ==> spec_with_default_port(h) == h + ":25565"@,
{
    reveal_strlit(":25565");
    reveal_strlit("]:25565");
    reveal_strlit("[");
    reveal_strlit("25565");
    let suffix = ":25565"@;
    assert(suffix =~= seq![':', '2', '5', '5', '6', '5']);
    assert(all_digits(suffix.drop_first()));
    if h.len() > 0 && h[0] != '[' && (forall|m: int| 0 <= m < h.len() ==> h[m] != ':') {
        lemma_count_absent(h, ':', h.len());
    }
    let r = spec_with_default_port(h);
    match spec_port_form(h) {
        PortForm::Kept => {},
        PortForm::PortAppended => {
            if h[0] == '[' {
                let end = find_char(h, ']')->0;
                lemma_find_from(h, ']', 0);
                assert(end + 1 == h.len());
                assert(r[0] == '[');
                lemma_find_is(r, ']', end);
                let rest = r.subrange(end + 1int, r.len() as int);
                assert(rest =~= suffix);
            } else {
                assert(r[0] == h[0]);
                lemma_count_concat(h, suffix, ':', suffix.len());
                lemma_default_suffix_count();
                assert(count_char(r, ':') == 1);
            }
        },
        PortForm::Bracketed => {
            let t = "]:25565"@;
            assert(t =~= seq![']', ':', '2', '5', '5', '6', '5']);
            assert(r[0] == '[');
            assert(r[h.len() + 1int] == ']');
            lemma_find_from(r, ']', 0);
            let end = find_char(r, ']')->0;
            assert(end <= h.len() + 1);
            assert(r[r.len() - 1] == '5');
            let rest = r.subrange(end + 1int, r.len() as int);
            assert(rest.len() > 0);
        },
    }
}

proof fn lemma_parsed_chars(d: Seq<char>)
    requires
        spec_parse_u16(d) is Some,
    ensures
        forall|m: int| 0 <= m < d.len() ==> is_digit(#[trigger] d[m]) || (m == 0 && d[m] == '+'),
{
    if d.len() > 0 && d[0] == '+' {
        assert forall|m: int| 0 <= m < d.len() implies is_digit(#[trigger] d[m]) || (m == 0
            && d[m] == '+') by {
            if m > 0 {
                assert(d[m] == d.drop_first()[m - 1]);
            }
        }
    }
}

/// The host shown to the user is the host that is looked up: where splitting
/// `with_default_port(s)` succeeds, its host is `strip_port(s)`. This holds
/// for every `s` with no `+` (a port written `+5` parses, but `strip_port`
/// keeps it) that is not exactly bracketed (`strip_port` keeps `[::1]` as it
/// is, where a port is appended to it before the lookup). Whatever `s`,
/// `strip_port(s)` is a part of `s`.
pub proof fn lemma_strip_port_agrees(s: Seq<char>)
    ensures
        (forall|m: int| 0 <= m < s.len() ==> s[m] != '+') && !(s.len() > 0 && s[0] == '['
            && s[s.len() - 1] == ']') ==> (spec_split_host_port(spec_with_default_port(s)) matches Ok(
            (h, _),
        ) ==> h == spec_strip_port(s)),
        exists|i: int, j: int|
            0 <= i <= j <= s.len() && spec_strip_port(s) == #[trigger] s.subrange(i, j),
{
    reveal_strlit(":25565");
    reveal_strlit("]:25565");
    reveal_strlit("[");
    reveal_strlit("25565");
    let n = s.len() as int;
    let r = spec_with_default_port(s);
    let no_plus = forall|m: int| 0 <= m < s.len() ==> s[m] != '+';
    lemma_find_from(s, ']', 0);
    lemma_rfind_before(s, ':', s.len());
    assert(s.subrange(0, n) =~= s);
    match spec_strip_bracketed_port(s) {
        Some(host) => {
            let end = find_char(s, ']')->0;
            assert(host == s.subrange(1, end as int));
        },
        None => {
            match rfind_char(s, ':') {
                Some(i) => {
                    assert(s.subrange(0, i as int) == s.subrange(0, i as int));
                },
                None => {},
            }
        },
    }
    if no_plus && !(s.len() > 0 && s[0] == '[' && s[s.len() - 1] == ']') {
        if spec_split_host_port(r) is Ok {
            if s.len() == 0 {
            } else if s[0] == '[' {
                let end = find_char(s, ']')->0;
                let rest = s.subrange(end + 1int, n);
                assert(r == s);
                assert(rest.len() > 0);
                assert(rest[0] == ':');
                lemma_parsed_chars(rest.drop_first());
                assert forall|m: int| 0 <= m < rest.drop_first().len() implies is_digit(
                    #[trigger] rest.drop_first()[m],
                ) by {
                    assert(rest.drop_first()[m] == s[end + 2 + m]);
                }
            } else if count_char(s, ':') == 0 {
                lemma_default_port_splits(s);
                lemma_count_zero(s, ':', s.len());
            } else if count_char(s, ':') == 1 {
                let i = rfind_char(s, ':')->0;
                let tail = s.subrange(i + 1int, n);
                lemma_parsed_chars(tail);
                assert forall|m: int| 0 <= m < tail.len() implies is_digit(#[trigger] tail[m]) by {
                    assert(tail[m] == s[i + 1 + m]);
                }
            } else if forall|m: int| 0 <= m < s.len() ==> s[m] != ']' {
                lemma_default_port_splits(s);
            } else {
                let t = "]:25565"@;
                assert(t =~= seq![']', ':', '2', '5', '5', '6', '5']);
                let k: int = find_char(s, ']')->0 as int;
                assert(r[k + 1] == ']');
                assert forall|m: int| 0 <= m < k + 1 implies r[m] != ']' by {
                    if m > 0 {
                        assert(r[m] == s[m - 1]);
                    }
                }
                lemma_find_is(r, ']', (k + 1) as nat);
                let rest = r.subrange(k + 2, r.len() as int);
                let d = rest.drop_first();
                if k + 1 < n {
                    assert(rest[0] == s[k + 1]);
                    assert(d[n - k - 2] == ']');
                    lemma_parsed_chars(d);
                    assert(is_digit(d[n - k - 2]) || (n - k - 2 == 0 && d[n - k - 2] == '+'));
                } else {
                    assert(rest[0] == ']');
                }
            }
        }
    }
}

/// The first position at or after `from` that holds `c`.
fn find_char_from(s: &str, c: char, from: usize) -> (r: Option<usize>)
    requires
        from <= s@.len(),
    ensures
        r == (match find_from(s@, c, from as nat) {
            Some(i) => Some(i as usize),
            None => None,
        }),
        r matches Some(i) ==> from <= i < s@.len(),
{
    let n = s.unicode_len();
    let mut i = from;
    proof {
        lemma_find_from(s@, c, from as nat);
    }
    while i < n
        invariant
            from <= i <= n,
            n == s@.len(),
            find_from(s@, c, from as nat) == find_from(s@, c, i as nat),
        decreases n - i,
    {
        if s.get_char(i) == c {
            return Some(i);
        }
        i = i + 1;
    }
    None
}

/// The last position that holds `c`.
fn rfind_char_exec(s: &str, c: char) -> (r: Option<usize>)
    ensures
        r == (match rfind_char(s@, c) {
            Some(i) => Some(i as usize),
            None => None,
        }),
        r matches Some(i) ==> i < s@.len(),
{
    let mut j = s.unicode_len();
    proof {
        lemma_rfind_before(s@, c, s@.len());
    }
    while j > 0
        invariant
            j <= s@.len(),
            rfind_char(s@, c) == rfind_before(s@, c, j as nat),
        decreases j,
    {
        if s.get_char(j - 1) == c {
            return Some(j - 1);
        }
        j = j - 1;
    }
    None
}

/// How many characters of `s` are `c`.
fn count_char_exec(s: &str, c: char) -> (r: usize)
    ensures
        r == count_char(s@, c),
{
    let n = s.unicode_len();
    let mut j: usize = 0;
    let mut count: usize = 0;
    while j < n
        invariant
            j <= n,
            n == s@.len(),
            count == count_before(s@, c, j as nat),
            count <= j,
        decreases n - j,
    {
        if s.get_char(j) == c {
            count = count + 1;
        }
        j = j + 1;
    }
    count
}

/// Whether every character of `s` from `from` on is an ASCII digit.
fn all_digits_from(s: &str, from: usize) -> (r: bool)
    requires
        from <= s@.len(),
    ensures
        r == all_digits(s@.subrange(from as int, s@.len() as int)),
{
    let n = s.unicode_len();
    let mut i = from;
    while i < n
        invariant
            from <= i <= n,
            n == s@.len(),
            forall|k: int| from <= k < i ==> is_digit(#[trigger] s@[k]),
        decreases n - i,
    {
        let ch = s.get_char(i);
        if !('0' <= ch && ch <= '9') {
            assert(s@.subrange(from as int, n as int)[i - from] == ch);
            return false;
        }
        i = i + 1;
    }
    assert forall|k: int| 0 <= k < s@.subrange(from as int, n as int).len() implies is_digit(
        #[trigger] s@.subrange(from as int, n as int)[k],
    ) by {
        assert(s@.subrange(from as int, n as int)[k] == s@[from + k]);
    }
    true
}

proof fn lemma_digits_value_push(d: Seq<char>, c: char)
    ensures
        digits_value(d.push(c)) == digits_value(d) * 10 + ((c as u32) - ('0' as u32)) as nat,
{
    assert(d.push(c).drop_last() =~= d);
}

proof fn lemma_digits_value_grows(d: Seq<char>, i: int)
    requires
        0 <= i <= d.len(),
        all_digits(d),
    ensures
        digits_value(d.subrange(0, i)) <= digits_value(d),
    decreases d.len() - i,
{
    if i < d.len() {
        lemma_digits_value_grows(d, i + 1);
        let pre = d.subrange(0, i);
        assert(d.subrange(0, i + 1) =~= pre.push(d[i]));
        lemma_digits_value_push(pre, d[i]);
        assert(is_digit(d[i]));
    } else {
        assert(d.subrange(0, i) =~= d);
    }
}

/// Parses a port: an optional `+`, then decimal digits of a value below
/// 65536 (as `str::parse::<u16>` does).
pub fn parse_u16(s: &str) -> (r: Option<u16>)
    ensures
        r == spec_parse_u16(s@),
{
    let n = s.unicode_len();
    let mut start: usize = 0;
    if n > 0 && s.get_char(0) == '+' {
        start = 1;
    }
    let ghost d = if s@.len() > 0 && s@[0] == '+' {
        s@.drop_first()
    } else {
        s@
    };
    assert(d =~= s@.subrange(start as int, n as int));
    if start == n {
        return None;
    }
    let mut value: u32 = 0;
    let mut i = start;
    while i < n
        invariant
            start <= i <= n,
            n == s@.len(),
            start < n,
            d == (if s@.len() > 0 && s@[0] == '+' {
                s@.drop_first()
            } else {
                s@
            }),
            d =~= s@.subrange(start as int, n as int),
            all_digits(s@.subrange(start as int, i as int)),
            value == digits_value(s@.subrange(start as int, i as int)),
            value <= 65535,
        decreases n - i,
    {
        let ch = s.get_char(i);
        let ghost pre = s@.subrange(start as int, i as int);
        assert(s@.subrange(start as int, i + 1) =~= pre.push(ch));
        if !('0' <= ch && ch <= '9') {
            assert(!all_digits(d)) by {
                assert(d[i - start] == ch);
            }
            return None;
        }
        proof {
            lemma_digits_value_push(pre, ch);
        }
        let digit = (ch as u32) - ('0' as u32);
        let next = value * 10 + digit;
        if next > 65535 {
            proof {
                if all_digits(d) {
                    lemma_digits_value_grows(d, i + 1 - start);
                    assert(d.subrange(0, i + 1 - start) =~= s@.subrange(start as int, i + 1));
                }
            }
            return None;
        }
        value = next;
        i = i + 1;
    }
    Some(value as u16)
}

/// The host inside `[host]:digits`, if `s` has that form.
fn strip_bracketed_port(s: &str) -> (r: Option<&str>)
    ensures
        match spec_strip_bracketed_port(s@) {
            Some(h) => r is Some && r->0@ == h,
            None => r is None,
        },
{
    let n = s.unicode_len();
    if n == 0 || s.get_char(0) != '[' {
        return None;
    }
    proof {
        lemma_find_from(s@, ']', 0);
    }
    let end = match find_char_from(s, ']', 0) {
        Some(end) => end,
        None => {
            return None;
        },
    };
    let ghost rest = s@.subrange(end + 1, n as int);
    if end + 1 < n && s.get_char(end + 1) == ':' && all_digits_from(s, end + 2) {
        assert(rest.drop_first() =~= s@.subrange(end + 2, n as int));
        assert(end >= 1);
        return Some(s.substring_char(1, end));
    }
    proof {
        if rest.len() > 0 && rest[0] == ':' {
            assert(rest.drop_first() =~= s@.subrange(end + 2, n as int));
        }
    }
    None
}

/// The host part of what the user typed: `s` without a trailing `:port`.
pub fn strip_port(s: &str) -> (r: &str)
    ensures
        r@ == spec_strip_port(s@),
{
    if let Some(stripped) = strip_bracketed_port(s) {
        return stripped;
    }
    let colon_count = count_char_exec(s, ':');
    proof {
        lemma_rfind_before(s@, ':', s@.len());
    }
    if colon_count <= 1 {
        if let Some(i) = rfind_char_exec(s, ':') {
            let n = s.unicode_len();
            assert(i < n);
            if all_digits_from(s, i + 1) {
                return s.substring_char(0, i);
            }
        }
    }
    s
}

/// The host with the default port appended where it has none: bracketed
/// first where it is a bare IPv6 address.
pub fn with_default_port(host: &str) -> (r: String)
    ensures
        r@ == spec_with_default_port(host@),
{
    let n = host.unicode_len();
    if n == 0 {
        return String::from_str(host);
    }
    if host.get_char(0) == '[' {
        proof {
            lemma_find_from(host@, ']', 0);
        }
        if let Some(end) = find_char_from(host, ']', 0) {
            let ghost rest = host@.subrange(end + 1, n as int);
            if end + 1 < n && host.get_char(end + 1) == ':' && all_digits_from(host, end + 2) {
                assert(rest.drop_first() =~= host@.subrange(end + 2, n as int));
                return String::from_str(host);
            }
            proof {
                if rest.len() > 0 && rest[0] == ':' {
                    assert(rest.drop_first() =~= host@.subrange(end + 2, n as int));
                }
            }
            if end + 1 == n {
                let mut r = String::from_str(host);
                r.append(":25565");
                return r;
            }
        }
        return String::from_str(host);
    }
    let colon_count = count_char_exec(host, ':');
    if colon_count == 0 {
        let mut r = String::from_str(host);
        r.append(":25565");
        r
    } else if colon_count == 1 {
        String::from_str(host)
    } else {
        let mut r = String::from_str("[");
        r.append(host);
        r.append("]:25565");
        r
    }
}

/// Splits `host:port` or `[host]:port` into its host and its port.
pub fn split_host_port(s: &str) -> (r: Result<(String, u16), PingError>)
    ensures
        match spec_split_host_port(s@) {
            Ok((h, p)) => r is Ok && r->Ok_0.0@ == h && r->Ok_0.1 == p,
            Err(e) => r == Err::<(String, u16), PingError>(e),
        },
{
    let n = s.unicode_len();
    if n > 0 && s.get_char(0) == '[' {
        proof {
            lemma_find_from(s@, ']', 0);
        }
        let end = match find_char_from(s, ']', 0) {
            Some(end) => end,
            None => {
                return Err(PingError::InvalidSocketAddress);
            },
        };
        let ghost rest = s@.subrange(end + 1, n as int);
        if !(end + 1 < n && s.get_char(end + 1) == ':') {
            return Err(PingError::InvalidSocketAddress);
        }
        let port_str = s.substring_char(end + 2, n);
        assert(rest.drop_first() =~= port_str@);
        let port = match parse_u16(port_str) {
            Some(p) => p,
            None => {
                return Err(PingError::InvalidPort);
            },
        };
        let host = s.substring_char(1, end);
        return Ok((String::from_str(host), port));
    }
    proof {
        lemma_rfind_before(s@, ':', s@.len());
    }
    let i = match rfind_char_exec(s, ':') {
        Some(i) => i,
        None => {
            return Err(PingError::InvalidSocketAddress);
        },
    };
    if i == 0 {
        return Err(PingError::InvalidSocketAddress);
    }
    let port_str = s.substring_char(i + 1, n);
    let port = match parse_u16(port_str) {
        Some(p) => p,
        None => {
            return Err(PingError::InvalidPort);
        },
    };
    let host = s.substring_char(0, i);
    Ok((String::from_str(host), port))
}

} // verus!
