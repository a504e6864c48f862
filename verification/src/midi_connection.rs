use vstd::prelude::*;

use crate::text::{decimal_digits, decimal_string, lemma_decimal_injective, lemma_decimal_shape};
use std::collections::HashMap;
use vstd::std_specs::iter::IteratorSpec;

verus! {

/// How port names are split: an optional `N- ` client prefix, the device name, and an
/// optional ` client:port` suffix whose port number is captured.
pub const PORT_NAME_PATTERN: &'static str = "^([0-9]- )?(.+?)( [0-9]+:([0-9]+))?$";

/// What `regex::Regex::replace` gives for a pattern, a text and a replacement: the text
/// with its first match of the pattern replaced (capture groups expanded).
pub uninterp spec fn regex_replaced(pattern: Seq<char>, haystack: Seq<char>, replacement: Seq<char>) -> Seq<char>;

/// Whether `regex::Regex::new` compiles a pattern (with its default limits), which depends
/// on the pattern alone.
pub uninterp spec fn regex_compiles(pattern: Seq<char>) -> bool;

/// `regex::Regex::new` followed by `Regex::replace` (made owned). Compiling the pattern
/// can fail, depending on the pattern alone; when it succeeds the text comes back with
/// the first match replaced, which depends on the three texts alone. Which patterns
/// compile is not stated.
#[verifier::external_body]
fn regex_replace(pattern: &str, haystack: &str, replacement: &str) -> (r: Option<String>)
    ensures
        r is Some <==> regex_compiles(pattern@),
        r matches Some(s) ==> s@ == regex_replaced(pattern@, haystack@, replacement@),
{
    match regex::Regex::new(pattern) {
        Ok(re) => Some(re.replace(haystack, replacement).into_owned()),
        Err(_) => None,
    }
}

/// Whether a character is a decimal digit.
pub open spec fn is_digit(c: char) -> bool {
    '0' <= c <= '9'
}

/// The value of a run of decimal digits.
pub open spec fn digits_value(s: Seq<char>) -> nat
    decreases s.len(),
{
    if s.len() == 0 {
        0
    } else {
        digits_value(s.drop_last()) * 10 + (s.last() as int - '0' as int) as nat
    }
}

/// The digits of a port number text: all of it, after a leading `+` if there is one.
pub open spec fn number_digits(s: Seq<char>) -> Seq<char> {
    if s.len() > 0 && s[0] == '+' { s.drop_first() } else { s }
}

/// Whether every character of a text is a decimal digit.
pub open spec fn all_digits(s: Seq<char>) -> bool {
    forall|i: int| 0 <= i < s.len() ==> is_digit(#[trigger] s[i])
}

/// The port number written in a text, as `str::parse::<u32>` reads it (decimal digits
/// after an optional `+`, within `u32`), or 0 when the text is not such a number.
pub open spec fn port_index_value(s: Seq<char>) -> u32 {
    let digits = number_digits(s);
    if digits.len() > 0 && all_digits(digits) && digits_value(digits) <= u32::MAX {
        digits_value(digits) as u32
    } else {
        0
    }
}

/// Reads the port number written in a text, 0 when there is none.
pub fn parse_port_index(text: &str) -> (r: u32)
    ensures
        r == port_index_value(text@),
{
    let n = text.unicode_len();
    let start: usize = if n > 0 && text.get_char(0) == '+' { 1 } else { 0 };
    let ghost digits = number_digits(text@);
    if start >= n {
        proof {
            assert(digits.len() == 0);
        }
        return 0;
    }
    let mut value: u64 = 0;
    let mut i: usize = start;
    while i < n
        invariant
            start <= i <= n,
            n == text@.len(),
            start == (if text@.len() > 0 && text@[0] == '+' { 1int } else { 0int }),
            digits == text@.subrange(start as int, n as int),
            digits == number_digits(text@),
            forall|k: int| 0 <= k < i - start ==> is_digit(#[trigger] digits[k]),
            value == digits_value(digits.subrange(0, i - start)),
            value <= u32::MAX,
        decreases n - i,
    {
        let c = text.get_char(i);
        proof {
            assert(digits[i - start] == c);
            assert(digits.subrange(0, i - start + 1).drop_last() == digits.subrange(0, i - start));
        }
        if c < '0' || c > '9' {
            proof {
                assert(!is_digit(digits[i - start]));
                assert(!all_digits(digits));
            }
            return 0;
        }
        let d = (c as u32 - '0' as u32) as u64;
        let next = value * 10 + d;
        proof {
            let pre = digits.subrange(0, i - start + 1);
            assert(pre.last() == c);
            assert(digits_value(pre) == next);
        }
        if next > u32::MAX as u64 {
            proof {
                let pre = digits.subrange(0, i - start + 1);
                assert(digits_value(pre) > u32::MAX);
                if all_digits(digits) {
                    lemma_digits_value_grows(digits, i - start + 1);
                    assert(digits_value(digits) > u32::MAX);
                    assert(!(digits_value(number_digits(text@)) <= u32::MAX));
                } else {
                    assert(!all_digits(number_digits(text@)));
                }
            }
            return 0;
        }
        value = next;
        i += 1;
    }
    proof {
        assert(digits.subrange(0, n - start) == digits);
        assert(all_digits(digits));
    }
    value as u32
}

/// Reading more digits never gives a smaller value.
proof fn lemma_digits_value_grows(s: Seq<char>, k: int)
    requires
        0 <= k <= s.len(),
        forall|i: int| 0 <= i < k ==> is_digit(#[trigger] s[i]),
        forall|i: int| 0 <= i < s.len() ==> is_digit(#[trigger] s[i]),
    ensures
        digits_value(s.subrange(0, k)) <= digits_value(s),
    decreases s.len() - k,
{
    if k < s.len() {
        lemma_digits_value_grows(s, k + 1);
        assert(s.subrange(0, k + 1).drop_last() == s.subrange(0, k));
    } else {
        assert(s.subrange(0, k) == s);
    }
}

/// The name a port gets: the device name, then its number among devices of that name
/// (from 2, only past the first), then its port number (from 2, only past the first).
pub open spec fn port_name(base: Seq<char>, device_id: nat, port_id: nat) -> Seq<char> {
    base + (if device_id > 0 { " "@ + decimal_digits(device_id + 1) } else { Seq::empty() })
        + (if port_id > 0 { " PORT "@ + decimal_digits(port_id + 1) } else { Seq::empty() })
}

/// The name a port gets from its device name, device number and port number.
pub fn build_name(base: &str, device_id: u32, port_id: u32) -> (r: String)
    requires
        device_id < u32::MAX,
        port_id < u32::MAX,
    ensures
        r@ == port_name(base@, device_id as nat, port_id as nat),
{
    let mut result = String::from_str(base);
    if device_id > 0 {
        proof {
            reveal_strlit(" ");
        }
        result.append(" ");
        let n = decimal_string(device_id + 1);
        result.append(n.as_str());
    }
    if port_id > 0 {
        proof {
            reveal_strlit(" PORT ");
        }
        result.append(" PORT ");
        let n = decimal_string(port_id + 1);
        result.append(n.as_str());
    }
    proof {
        assert(result@ =~= port_name(base@, device_id as nat, port_id as nat));
    }
    result
}

/// Devices of the same name get different names.
pub proof fn lemma_port_name_injective(base: Seq<char>, d1: nat, d2: nat, port_id: nat)
    requires
        port_name(base, d1, port_id) == port_name(base, d2, port_id),
    ensures
        d1 == d2,
{
    let tail = if port_id > 0 { " PORT "@ + decimal_digits(port_id + 1) } else { Seq::<char>::empty() };
    let m1 = if d1 > 0 { " "@ + decimal_digits(d1 + 1) } else { Seq::<char>::empty() };
    let m2 = if d2 > 0 { " "@ + decimal_digits(d2 + 1) } else { Seq::<char>::empty() };
    let a = port_name(base, d1, port_id);
    assert(a == base + m1 + tail);
    assert(port_name(base, d2, port_id) == base + m2 + tail);
    lemma_decimal_shape(d1 + 1);
    lemma_decimal_shape(d2 + 1);
    reveal_strlit(" ");
    assert(m1.len() == m2.len());
    assert(m1 =~= a.subrange(base.len() as int, (base.len() + m1.len()) as int));
    assert(m2 =~= a.subrange(base.len() as int, (base.len() + m2.len()) as int));
    if d1 > 0 && d2 > 0 {
        assert(decimal_digits(d1 + 1) =~= m1.drop_first());
        assert(decimal_digits(d2 + 1) =~= m2.drop_first());
        lemma_decimal_injective(d1 + 1, d2 + 1);
    }
}

/// The texts of a list of strings.
pub open spec fn texts(v: Seq<String>) -> Seq<Seq<char>> {
    v.map_values(|s: String| s@)
}

/// Whether the port at position `i` got its name right: the name of the first device
/// number whose name no earlier port took.
pub open spec fn assigned_at(parts: Seq<(Seq<char>, u32)>, names: Seq<Seq<char>>, i: int) -> bool {
    exists|d: nat| {
        &&& names[i] == port_name(parts[i].0, d, parts[i].1 as nat)
        &&& !names.subrange(0, i).contains(names[i])
        &&& forall|e: nat| e < d ==> names.subrange(0, i).contains(#[trigger] port_name(parts[i].0, e, parts[i].1 as nat))
    }
}

/// Whether `names` is the list of port names given to ports with these device names and
/// port numbers, in order: each port takes the first device number whose name is not
/// taken by an earlier port.
pub open spec fn assigned_names(parts: Seq<(Seq<char>, u32)>, names: Seq<Seq<char>>) -> bool {
    &&& names.len() == parts.len()
    &&& forall|i: int| 0 <= i < names.len() ==> #[trigger] assigned_at(parts, names, i)
}

fn contains_text(names: &Vec<String>, name: &String) -> (r: bool)
    ensures
        r == texts(names@).contains(name@),
{
    let mut i: usize = 0;
    while i < names.len()
        invariant
            i <= names@.len(),
            forall|k: int| 0 <= k < i ==> names@[k]@ != name@,
        decreases names@.len() - i,
    {
        if names[i] == *name {
            proof {
                assert(texts(names@)[i as int] == name@);
            }
            return true;
        }
        i += 1;
    }
    proof {
        if texts(names@).contains(name@) {
            let k = choose|k: int| 0 <= k < texts(names@).len() && texts(names@)[k] == name@;
            assert(names@[k]@ == name@);
        }
    }
    false
}

/// At most as many distinct names can be taken as there are names.
proof fn lemma_taken_bound(taken: Seq<Seq<char>>, base: Seq<char>, port_id: nat, k: nat)
    requires
        forall|e: nat| e < k ==> taken.contains(#[trigger] port_name(base, e, port_id)),
    ensures
        k <= taken.len(),
{
    let c = Seq::new(k, |d: int| port_name(base, d as nat, port_id));
    assert(c.no_duplicates()) by {
        assert forall|i: int, j: int| 0 <= i < j < c.len() implies c[i] != c[j] by {
            if c[i] == c[j] {
                lemma_port_name_injective(base, i as nat, j as nat, port_id);
            }
        }
    }
    c.unique_seq_to_set();
    assert(c.to_set().subset_of(taken.to_set())) by {
        assert forall|x: Seq<char>| c.to_set().contains(x) implies taken.to_set().contains(x) by {
            let i = choose|i: int| 0 <= i < c.len() && c[i] == x;
            assert(taken.contains(port_name(base, i as nat, port_id)));
        }
    }
    vstd::set_lib::lemma_len_subset(c.to_set(), taken.to_set());
    taken.lemma_cardinality_of_set();
}

/// Names ports from their device names and port numbers: each port takes the first
/// device number whose name is still free.
pub fn assign_port_names(parts: &Vec<(String, u32)>) -> (r: Vec<String>)
    requires
        forall|i: int| 0 <= i < parts@.len() ==> (#[trigger] parts@[i]).1 < u32::MAX,
        parts@.len() < u32::MAX,
    ensures
        assigned_names(parts@.map_values(|p: (String, u32)| (p.0@, p.1)), texts(r@)),
{
    let ghost ps = parts@.map_values(|p: (String, u32)| (p.0@, p.1));
    let mut result: Vec<String> = Vec::new();
    let mut i: usize = 0;
    while i < parts.len()
        invariant
            i <= parts@.len(),
            parts@.len() < u32::MAX,
            forall|k: int| 0 <= k < parts@.len() ==> (#[trigger] parts@[k]).1 < u32::MAX,
            ps == parts@.map_values(|p: (String, u32)| (p.0@, p.1)),
            assigned_names(ps.subrange(0, i as int), texts(result@)),
        decreases parts@.len() - i,
    {
        let base = &parts[i].0;
        let port_index = parts[i].1;
        let mut device_index: u32 = 0;
        let mut device_name = build_name(base.as_str(), device_index, port_index);
        while contains_text(&result, &device_name)
            invariant
                result@.len() == i,
                i < u32::MAX,
                port_index < u32::MAX,
                device_name@ == port_name(base@, device_index as nat, port_index as nat),
                forall|e: nat| e < device_index ==> texts(result@).contains(#[trigger] port_name(base@, e, port_index as nat)),
                device_index <= i,
            decreases i - device_index,
        {
            proof {
                lemma_taken_bound(texts(result@), base@, port_index as nat, device_index as nat + 1);
            }
            device_index += 1;
            device_name = build_name(base.as_str(), device_index, port_index);
        }
        let ghost before = texts(result@);
        result.push(device_name);
        proof {
            let names = texts(result@);
            let sub = ps.subrange(0, i as int + 1);
            assert(names.subrange(0, i as int) == before);
            assert(names[i as int] == port_name(base@, device_index as nat, port_index as nat));
            assert(sub[i as int] == (base@, port_index));
            assert forall|j: int| 0 <= j < names.len() implies #[trigger] assigned_at(sub, names, j) by {
                if j < i {
                    let prev = ps.subrange(0, i as int);
                    assert(names[j] == before[j]);
                    assert(names.subrange(0, j) =~= before.subrange(0, j));
                    assert(sub[j] == prev[j]);
                    assert(assigned_at(prev, before, j));
                    let d = choose|d: nat| {
                        &&& before[j] == port_name(prev[j].0, d, prev[j].1 as nat)
                        &&& !before.subrange(0, j).contains(before[j])
                        &&& forall|e: nat| e < d ==> before.subrange(0, j).contains(#[trigger] port_name(prev[j].0, e, prev[j].1 as nat))
                    };
                    assert(names[j] == port_name(sub[j].0, d, sub[j].1 as nat));
                } else {
                    assert(j == i);
                    assert(names.subrange(0, j) =~= before);
                    let d = device_index as nat;
                    assert(names[j] == port_name(sub[j].0, d, sub[j].1 as nat));
                    assert(forall|e: nat| e < d ==> names.subrange(0, j).contains(#[trigger] port_name(sub[j].0, e, sub[j].1 as nat)));
                }
            }
            assert(names.len() == sub.len());
            assert(assigned_names(sub, names));
        }
        i += 1;
    }
    proof {
        assert(ps.subrange(0, parts@.len() as int) == ps);
    }
    result
}

/// The port number the name pattern finds in a port name.
pub open spec fn name_port_index(name: Seq<char>) -> u32 {
    port_index_value(regex_replaced(PORT_NAME_PATTERN@, name, "${4}"@))
}

/// Splits port names into device name and port number, and names each port so that
/// devices of the same name stay apart. `None` when the pattern does not compile (and
/// there is a name to split) or a port number is the largest `u32` (whose successor has
/// no name).
pub fn normalize_port_names(names: &Vec<String>) -> (r: Option<Vec<String>>)
    requires
        names@.len() < u32::MAX,
    ensures
        r is Some <==> ((names@.len() == 0 || regex_compiles(PORT_NAME_PATTERN@))
            && forall|i: int| 0 <= i < names@.len() ==> name_port_index(#[trigger] names@[i]@) < u32::MAX),
        r matches Some(v) ==> assigned_names(
            Seq::new(names@.len(), |i: int| (
                regex_replaced(PORT_NAME_PATTERN@, names@[i]@, "${2}"@),
                port_index_value(regex_replaced(PORT_NAME_PATTERN@, names@[i]@, "${4}"@)),
            )),
            texts(v@),
        ),
{
    let mut parts: Vec<(String, u32)> = Vec::new();
    let ghost mut bases: Seq<Seq<char>> = Seq::empty();
    let ghost mut indexes: Seq<Seq<char>> = Seq::empty();
    let mut i: usize = 0;
    while i < names.len()
        invariant
            i <= names@.len(),
            names@.len() < u32::MAX,
            parts@.len() == i,
            bases.len() == i,
            indexes.len() == i,
            forall|k: int| #![auto] 0 <= k < i ==> bases[k] == regex_replaced(PORT_NAME_PATTERN@, names@[k]@, "${2}"@)
                && indexes[k] == regex_replaced(PORT_NAME_PATTERN@, names@[k]@, "${4}"@)
                && parts@[k].0@ == bases[k] && parts@[k].1 == port_index_value(indexes[k]),
            forall|k: int| 0 <= k < i ==> (#[trigger] parts@[k]).1 < u32::MAX,
            i == 0 || regex_compiles(PORT_NAME_PATTERN@),
            forall|k: int| 0 <= k < i ==> name_port_index(#[trigger] names@[k]@) < u32::MAX,
        decreases names@.len() - i,
    {
        let base = match regex_replace(PORT_NAME_PATTERN, names[i].as_str(), "${2}") {
            Some(b) => b,
            None => return None,
        };
        let index_text = match regex_replace(PORT_NAME_PATTERN, names[i].as_str(), "${4}") {
            Some(t) => t,
            None => return None,
        };
        let port_index = parse_port_index(index_text.as_str());
        if port_index == u32::MAX {
            proof {
                assert(name_port_index(names@[i as int]@) == u32::MAX);
            }
            return None;
        }
        let ghost old_parts = parts@;
        proof {
            bases = bases.push(base@);
            indexes = indexes.push(index_text@);
        }
        parts.push((base, port_index));
        proof {
            assert forall|k: int| #![auto] 0 <= k < i + 1 implies bases[k] == regex_replaced(PORT_NAME_PATTERN@, names@[k]@, "${2}"@)
                && indexes[k] == regex_replaced(PORT_NAME_PATTERN@, names@[k]@, "${4}"@)
                && parts@[k].0@ == bases[k] && parts@[k].1 == port_index_value(indexes[k]) by {
                if k < i {
                    assert(parts@[k] == old_parts[k]);
                }
            }
            assert forall|k: int| 0 <= k < i + 1 implies (#[trigger] parts@[k]).1 < u32::MAX by {
                if k < i {
                    assert(parts@[k] == old_parts[k]);
                }
            }
            assert forall|k: int| 0 <= k < i + 1 implies name_port_index(#[trigger] names@[k]@) < u32::MAX by {
                if k == i {
                    assert(name_port_index(names@[k]@) == port_index);
                }
            }
        }
        i += 1;
    }
    proof {
        assert forall|k: int| 0 <= k < parts@.len() implies (#[trigger] parts@[k]).1 < u32::MAX by {
            assert(parts@[k].1 < u32::MAX);
        }
    }
    let result = assign_port_names(&parts);
    proof {
        assert forall|k: int| 0 <= k < parts@.len() implies parts@[k].0@ == regex_replaced(PORT_NAME_PATTERN@, names@[k]@, "${2}"@)
            && parts@[k].1 == port_index_value(regex_replaced(PORT_NAME_PATTERN@, names@[k]@, "${4}"@)) by {
            assert(bases[k] == regex_replaced(PORT_NAME_PATTERN@, names@[k]@, "${2}"@));
        }
        let ps = parts@.map_values(|p: (String, u32)| (p.0@, p.1));
        assert(ps =~= Seq::new(names@.len(), |i: int| (
            regex_replaced(PORT_NAME_PATTERN@, names@[i]@, "${2}"@),
            port_index_value(regex_replaced(PORT_NAME_PATTERN@, names@[i]@, "${4}"@)),
        )));
    }
    Some(result)
}


/// The key a three-byte message's value is remembered under: its status and first data byte.
pub open spec fn value_key(status: u8, data: u8) -> u16 {
    (status as int * 256 + data as int) as u16
}

/// An output port shared by the devices that send to it. It remembers the last value of
/// every three-byte message, so that they can be sent again when the port reconnects,
/// and queues what is sent until the port takes it.
pub struct SharedMidiOutputConnection {
    current_values: HashMap<u16, u8>,
    outbox: Vec<Vec<u8>>,
}

/// A handle on the thread that listens to an input port.
pub struct ThreadReference {}

impl SharedMidiOutputConnection {
    /// The last value sent for each status and data byte.
    pub closed spec fn values(&self) -> Map<u16, u8> {
        self.current_values@
    }

    /// The messages sent and not yet taken by the port, oldest first.
    pub closed spec fn queued(&self) -> Seq<Seq<u8>> {
        self.outbox@.map_values(|m: Vec<u8>| m@)
    }

    /// A connection that has sent nothing.
    pub fn new() -> (r: SharedMidiOutputConnection)
        ensures
            r.values() == Map::<u16, u8>::empty(),
            r.queued() == Seq::<Seq<u8>>::empty(),
    {
        let r = SharedMidiOutputConnection { current_values: HashMap::new(), outbox: Vec::new() };
        assert(r.queued() =~= Seq::<Seq<u8>>::empty());
        r
    }

    /// Sends a message: a three-byte message's value is remembered under its status and
    /// first data byte, and every message is queued for the port.
    pub fn send(&mut self, message: &[u8])
        ensures
            final(self).values() == (if message@.len() == 3 {
                old(self).values().insert(value_key(message@[0], message@[1]), message@[2])
            } else {
                old(self).values()
            }),
            final(self).queued() == old(self).queued().push(message@),
    {
        broadcast use vstd::std_specs::hash::group_hash_axioms;
        if message.len() == 3 {
            let key = message[0] as u16 * 256 + message[1] as u16;
            self.current_values.insert(key, message[2]);
        }
        let ghost before = self.outbox@;
        let mut copy: Vec<u8> = Vec::new();
        let mut i: usize = 0;
        while i < message.len()
            invariant
                i <= message@.len(),
                copy@ == message@.subrange(0, i as int),
            decreases message@.len() - i,
        {
            copy.push(message[i]);
            i += 1;
        }
        proof {
            assert(message@.subrange(0, message@.len() as int) == message@);
        }
        self.outbox.push(copy);
        proof {
            assert(self.queued() =~= old(self).queued().push(message@));
        }
    }

    /// Hands the queued messages to the port, oldest first, and empties the queue.
    pub fn take_messages(&mut self) -> (r: Vec<Vec<u8>>)
        ensures
            r@.map_values(|m: Vec<u8>| m@) == old(self).queued(),
            final(self).queued() == Seq::<Seq<u8>>::empty(),
            final(self).values() == old(self).values(),
    {
        let mut taken: Vec<Vec<u8>> = Vec::new();
        std::mem::swap(&mut taken, &mut self.outbox);
        proof {
            assert(self.queued() =~= Seq::<Seq<u8>>::empty());
        }
        taken
    }

    /// The messages to send again when the port reconnects: every remembered control
    /// change, and every other remembered message whose value is not zero.
    pub fn resend_messages(&self) -> (r: Vec<(u8, u8, u8)>)
        ensures
            forall|m: (u8, u8, u8)| r@.contains(m) <==> {
                &&& self.values().contains_key(value_key(m.0, m.1))
                &&& self.values()[value_key(m.0, m.1)] == m.2
                &&& ((176 <= m.0 < 192) || m.2 > 0)
            },
            r@.no_duplicates(),
    {
        broadcast use vstd::std_specs::hash::group_hash_axioms;
        let mut result: Vec<(u8, u8, u8)> = Vec::new();
        let values_iter = self.current_values.iter();
        let ghost entries = values_iter.remaining();
        assert(entries.no_duplicates());
        for entry in it: values_iter
            invariant
                it.seq() == entries,
                entries.no_duplicates(),
                result@.no_duplicates(),
                forall|i: int| 0 <= i < entries.len() ==> self.current_values@.contains_key(*entries[i].0)
                    && self.current_values@[*entries[i].0] == *entries[i].1,
                forall|k: u16| #[trigger] self.current_values@.contains_key(k) ==> entries.contains((&k, &self.current_values@[k])),
                forall|m: (u8, u8, u8)| result@.contains(m) <==> (exists|i: int| 0 <= i < it.index()
                    && *entries[i].0 == value_key(m.0, m.1) && *entries[i].1 == m.2) && ((176 <= m.0 < 192) || m.2 > 0),
        {
            let (key, value) = entry;
            let status = (*key / 256) as u8;
            let data = (*key % 256) as u8;
            proof {
                assert(value_key(status, data) == *key);
                assert forall|a: u8, b: u8| value_key(a, b) == *key implies a == status && b == data by {}
            }
            let ghost before = result@;
            if (status >= 176 && status < 192) || *value > 0 {
                proof {
                    if before.contains((status, data, *value)) {
                        let i = choose|i: int| 0 <= i < it.index() && *entries[i].0 == value_key(status, data)
                            && *entries[i].1 == *value;
                        assert(entries[i] == entries[it.index() as int]);
                    }
                }
                result.push((status, data, *value));
                proof {
                    assert forall|a: int, b: int| 0 <= a < b < result@.len() implies result@[a] != result@[b] by {
                        if b == result@.len() - 1 {
                            assert(before.contains(result@[a]));
                        }
                    }
                }
            }
            proof {
                assert forall|m: (u8, u8, u8)| result@.contains(m) <==> (exists|i: int| 0 <= i < it.index() + 1
                    && *entries[i].0 == value_key(m.0, m.1) && *entries[i].1 == m.2) && ((176 <= m.0 < 192) || m.2 > 0) by {
                    if result@.contains(m) && !before.contains(m) {
                        assert(m == (status, data, *value)) by {
                            let j = choose|j: int| 0 <= j < result@.len() && result@[j] == m;
                            if j < before.len() {
                                assert(before[j] == m);
                            }
                        }
                        assert(*entries[it.index() as int].0 == value_key(m.0, m.1));
                    }
                    if before.contains(m) {
                        let j = choose|j: int| 0 <= j < before.len() && before[j] == m;
                        assert(result@[j] == m);
                    }
                    if (exists|i: int| 0 <= i < it.index() + 1 && *entries[i].0 == value_key(m.0, m.1) && *entries[i].1 == m.2)
                        && ((176 <= m.0 < 192) || m.2 > 0) {
                        let i = choose|i: int| 0 <= i < it.index() + 1 && *entries[i].0 == value_key(m.0, m.1) && *entries[i].1 == m.2;
                        if i == it.index() {
                            assert(m == (status, data, *value));
                            assert(result@[result@.len() - 1] == m);
                        }
                    }
                }
            }
        }
        proof {
            assert forall|m: (u8, u8, u8)| result@.contains(m) <==> {
                &&& self.values().contains_key(value_key(m.0, m.1))
                &&& self.values()[value_key(m.0, m.1)] == m.2
                &&& ((176 <= m.0 < 192) || m.2 > 0)
            } by {
                let k = value_key(m.0, m.1);
                if self.current_values@.contains_key(k) && self.current_values@[k] == m.2 && ((176 <= m.0 < 192) || m.2 > 0) {
                    assert(entries.contains((&k, &self.current_values@[k])));
                    let i = choose|i: int| 0 <= i < entries.len() && entries[i] == (&k, &self.current_values@[k]);
                    assert(*entries[i].0 == k);
                }
            }
        }
        result
    }
}

} // verus!
