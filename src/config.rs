//! The process configuration: interface names and the watched prefix, read
//! from a textual form `address/length`.
use vstd::prelude::*;
use crate::prefix::{Ipv6Prefix, ADDRESS_BITS};

verus! {

/// Why the configuration could not be built.
#[derive(Clone, Copy, Debug, PartialEq, Eq, Structural)]
pub enum ConfigError {
    /// The prefix text holds no `/`.
    MissingSeparator,
    /// The text before the `/` is not an IPv6 address.
    InvalidAddress,
    /// The text after the `/` (up to a further `/`, if any) is not a decimal
    /// integer from 0 to 128: one or more digits, optionally after a `+`.
    InvalidLength,
}

/// The configuration as given on the command line, still unparsed.
pub struct CliCommand {
    /// Interface on which frames are captured.
    pub iface_name: String,
    /// Interface on which neighbour proxy entries are installed.
    pub broadcast_iface: String,
    /// The watched prefix, as `address/length`.
    pub prefix: String,
}

/// The parsed configuration, fixed for the life of the process.
pub struct Command {
    /// Interface on which frames are captured.
    pub iface_name: String,
    /// Interface on which neighbour proxy entries are installed.
    pub broadcast_iface: String,
    /// The watched prefix.
    pub prefix: Ipv6Prefix,
}

/// `i` is the position of the first `/` in `s`.
pub open spec fn is_first_slash(s: Seq<char>, i: int) -> bool {
    &&& 0 <= i < s.len()
    &&& s[i] == '/'
    &&& forall|j: int| 0 <= j < i ==> s[j] != '/'
}

/// The position of the first `/` in `s`, if any.
pub open spec fn first_slash(s: Seq<char>) -> Option<int> {
    if exists|i: int| is_first_slash(s, i) {
        Some(choose|i: int| is_first_slash(s, i))
    } else {
        None
    }
}

/// `s` is a non-empty run of ASCII decimal digits.
pub open spec fn is_decimal(s: Seq<char>) -> bool {
    s.len() > 0 && forall|i: int| 0 <= i < s.len() ==> '0' <= #[trigger] s[i] <= '9'
}

/// The value of the decimal digits `s`.
pub open spec fn decimal_value(s: Seq<char>) -> nat
    decreases s.len(),
{
    if s.len() == 0 {
        0
    } else {
        decimal_value(s.drop_last()) * 10 + (s.last() as nat - '0' as nat) as nat
    }
}

/// The value of the digits `s`, if they are decimal digits of at most 128.
pub open spec fn bounded_decimal(s: Seq<char>) -> Option<nat> {
    if is_decimal(s) && decimal_value(s) <= 128 {
        Some(decimal_value(s))
    } else {
        None
    }
}

/// `s` without a leading `+`, if it has one.
pub open spec fn without_plus(s: Seq<char>) -> Seq<char> {
    if s.len() > 0 && s[0] == '+' {
        s.subrange(1, s.len() as int)
    } else {
        s
    }
}

/// The prefix length that the text `s` denotes, if it is a valid one: an
/// optional `+`, then one or more decimal digits of a value of at most 128.
pub open spec fn length_of_text(s: Seq<char>) -> Option<nat> {
    bounded_decimal(without_plus(s))
}

/// The text between the first `/` of `s`, at `i`, and the next `/` or the end.
pub open spec fn length_field(s: Seq<char>, i: int) -> Seq<char> {
    let rest = s.subrange(i + 1, s.len() as int);
    match first_slash(rest) {
        Some(j) => rest.subrange(0, j),
        None => rest,
    }
}

/// The network address and length that the text `s` denotes, given what the
/// text before its first `/` reads as an IPv6 address (`None`: not one). The
/// length is the text after that `/`, up to a further `/` if there is one.
pub open spec fn prefix_of_text(s: Seq<char>, address: Option<u128>) -> Result<
    (u128, nat),
    ConfigError,
> {
    match first_slash(s) {
        None => Err(ConfigError::MissingSeparator),
        Some(i) => match address {
            None => Err(ConfigError::InvalidAddress),
            Some(a) => match length_of_text(length_field(s, i)) {
                None => Err(ConfigError::InvalidLength),
                Some(l) => Ok((a, l)),
            },
        },
    }
}

/// Once a prefix of decimal digits exceeds 128, so does every longer run.
proof fn lemma_decimal_grows(s: Seq<char>, k: int)
    requires
        0 <= k <= s.len(),
        forall|i: int| 0 <= i < s.len() ==> '0' <= #[trigger] s[i] <= '9',
    ensures
        decimal_value(s.subrange(0, k)) <= decimal_value(s),
    decreases s.len() - k,
{
    if k < s.len() {
        lemma_decimal_grows(s, k + 1);
        let t = s.subrange(0, k + 1);
        assert(t.drop_last() =~= s.subrange(0, k));
        assert('0' <= t.last() <= '9');
    } else {
        assert(s.subrange(0, k) =~= s);
    }
}

/// Finds the first `/` of `s`.
fn find_slash(s: &str) -> (r: Option<usize>)
    ensures
        r is None <==> first_slash(s@) is None,
        r matches Some(i) ==> first_slash(s@) == Some(i as int) && is_first_slash(s@, i as int),
        s@.len() <= usize::MAX,
{
    let n = s.unicode_len();
    let mut i: usize = 0;
    while i < n
        invariant
            n == s@.len(),
            i <= n,
            forall|j: int| 0 <= j < i ==> s@[j] != '/',
        decreases n - i,
    {
        if s.get_char(i) == '/' {
            assert(is_first_slash(s@, i as int));
            proof {
                let k = choose|k: int| is_first_slash(s@, k);
                assert(k == i as int) by {
                    if k < i {
                        assert(s@[k] != '/');
                    } else if k > i {
                        assert(s@[i as int] != '/');
                    }
                }
            }
            return Some(i);
        }
        i = i + 1;
    }
    assert(!exists|k: int| is_first_slash(s@, k));
    None
}

/// Reads the characters of `s` from position `from` on as a number: `None`
/// unless they are decimal digits of a value of at most 128.
fn parse_digits(s: &str, from: usize) -> (r: Option<usize>)
    requires
        from <= s@.len(),
    ensures
        r matches Some(l) ==> bounded_decimal(s@.subrange(from as int, s@.len() as int)) == Some(
            l as nat,
        ),
        r is None ==> bounded_decimal(s@.subrange(from as int, s@.len() as int)) is None,
{
    let n = s.unicode_len();
    let ghost t = s@.subrange(from as int, n as int);
    if from == n {
        return None;
    }
    let mut value: usize = 0;
    let mut i: usize = from;
    while i < n
        invariant
            n == s@.len(),
            from < n,
            from <= i <= n,
            t == s@.subrange(from as int, n as int),
            forall|j: int| 0 <= j < i - from ==> '0' <= #[trigger] t[j] <= '9',
            value as nat == decimal_value(t.subrange(0, i - from)),
            value <= 128,
        decreases n - i,
    {
        let c = s.get_char(i);
        if c < '0' || c > '9' {
            assert(t[i - from] == c);
            return None;
        }
        proof {
            let u = t.subrange(0, i - from + 1);
            assert(u.drop_last() =~= t.subrange(0, i - from));
            assert(u.last() == c);
        }
        value = value * 10 + (c as u32 - '0' as u32) as usize;
        i = i + 1;
        if value > ADDRESS_BITS {
            // Either a later character is not a digit, or all are and the
            // whole value is at least as large.
            proof {
                if forall|j: int| 0 <= j < t.len() ==> '0' <= #[trigger] t[j] <= '9' {
                    lemma_decimal_grows(t, i - from);
                }
            }
            return None;
        }
    }
    assert(t.subrange(0, n - from) =~= t);
    Some(value)
}

/// The text of `s` between its first `/`, at `i`, and the next `/` or the end.
fn length_text(s: &str, i: usize) -> (r: &str)
    requires
        is_first_slash(s@, i as int),
    ensures
        r@ == length_field(s@, i as int),
{
    let n = s.unicode_len();
    let rest = s.substring_char(i + 1, n);
    match find_slash(rest) {
        Some(j) => rest.substring_char(0, j),
        None => rest,
    }
}

/// Reads a prefix length: an optional `+`, then decimal digits of a value of
/// at most 128.
fn parse_length(s: &str) -> (r: Option<usize>)
    ensures
        r matches Some(l) ==> length_of_text(s@) == Some(l as nat),
        r is None ==> length_of_text(s@) is None,
{
    let n = s.unicode_len();
    if n > 0 && s.get_char(0) == '+' {
        parse_digits(s, 1)
    } else {
        proof {
            assert(s@.subrange(0, s@.len() as int) =~= s@);
        }
        parse_digits(s, 0)
    }
}

/// Whether `a` and `b` hold the same characters.
pub fn same_text(a: &str, b: &str) -> (r: bool)
    ensures
        r == (a@ == b@),
{
    let n = a.unicode_len();
    if n != b.unicode_len() {
        return false;
    }
    let mut i: usize = 0;
    while i < n
        invariant
            n == a@.len(),
            n == b@.len(),
            i <= n,
            forall|j: int| 0 <= j < i ==> a@[j] == b@[j],
        decreases n - i,
    {
        if a.get_char(i) != b.get_char(i) {
            return false;
        }
        i = i + 1;
    }
    assert(a@ =~= b@);
    true
}

/// The position of the first of `names` that equals `name`: how the capture
/// interface is picked from the interfaces that the system lists.
pub fn device_index_by_name(names: &[String], name: &str) -> (r: Option<usize>)
    ensures
        r matches Some(i) ==> i < names@.len() && names@[i as int]@ == name@,
        r matches Some(i) ==> forall|j: int| 0 <= j < i ==> names@[j]@ != name@,
        r is None ==> forall|j: int| 0 <= j < names@.len() ==> names@[j]@ != name@,
{
    let mut i: usize = 0;
    while i < names.len()
        invariant
            i <= names@.len(),
            forall|j: int| 0 <= j < i ==> names@[j]@ != name@,
        decreases names@.len() - i,
    {
        if same_text(names[i].as_str(), name) {
            return Some(i);
        }
        i = i + 1;
    }
    None
}

impl CliCommand {
    /// The text before the first `/` of the prefix: the network address as
    /// written. `None` when there is no `/`.
    pub fn address_text(&self) -> (r: Option<&str>)
        ensures
            r is None <==> first_slash(self.prefix@) is None,
            r matches Some(t) ==> t@ == self.prefix@.subrange(0, first_slash(self.prefix@)->0),
    {
        let s = self.prefix.as_str();
        match find_slash(s) {
            None => None,
            Some(i) => Some(s.substring_char(0, i)),
        }
    }

    /// Parses the prefix `address/length`, where `address` is what the text
    /// before the `/` (see `address_text`) reads as an IPv6 address.
    pub fn parse_prefix(&self, address: Option<u128>) -> (r: Result<Ipv6Prefix, ConfigError>)
        ensures
            r is Ok <==> prefix_of_text(self.prefix@, address) is Ok,
            r matches Err(e) ==> prefix_of_text(self.prefix@, address) == Err::<(u128, nat), ConfigError>(e),
            r matches Ok(p) ==> prefix_of_text(self.prefix@, address) == Ok::<(u128, nat), ConfigError>((p.spec_addr(), p.spec_length())),
    {
        let s = self.prefix.as_str();
        match find_slash(s) {
            None => Err(ConfigError::MissingSeparator),
            Some(i) => match address {
                None => Err(ConfigError::InvalidAddress),
                Some(a) => match parse_length(length_text(s, i)) {
                    None => Err(ConfigError::InvalidLength),
                    Some(l) => match Ipv6Prefix::new(a, l) {
                        Some(p) => Ok(p),
                        None => Err(ConfigError::InvalidLength),
                    },
                },
            },
        }
    }
}

impl Command {
    /// Builds the configuration from the command line, where `address` is what
    /// the address text of the prefix reads as an IPv6 address.
    pub fn from_cli(cli: CliCommand, address: Option<u128>) -> (r: Result<Command, ConfigError>)
        ensures
            r is Ok <==> prefix_of_text(cli.prefix@, address) is Ok,
            r matches Err(e) ==> prefix_of_text(cli.prefix@, address) == Err::<(u128, nat), ConfigError>(e),
            r matches Ok(c) ==> prefix_of_text(cli.prefix@, address) == Ok::<(u128, nat), ConfigError>((c.prefix.spec_addr(), c.prefix.spec_length())),
            r matches Ok(c) ==> c.iface_name@ == cli.iface_name@ && c.broadcast_iface@ == cli.broadcast_iface@,
    {
        match cli.parse_prefix(address) {
            Ok(prefix) => Ok(Command {
                iface_name: cli.iface_name,
                broadcast_iface: cli.broadcast_iface,
                prefix,
            }),
            Err(e) => Err(e),
        }
    }
}

} // verus!
