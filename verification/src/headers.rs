//! The header set of a message: names with their raw values, each name once,
//! in the order in which the names first arrived.

use vstd::prelude::*;
use vstd::string::*;
use vstd::utf8::*;
use crate::text::str_eq;

verus! {

/// A header set as a list of names with their values.
pub type Pairs = Seq<(Seq<char>, Seq<u8>)>;

/// One header: its name as it stood on the wire, and its raw value.
#[derive(Debug, PartialEq, Eq)]
pub struct Header {
    pub name: String,
    pub value: Vec<u8>,
}

impl View for Header {
    type V = (Seq<char>, Seq<u8>);

    open spec fn view(&self) -> (Seq<char>, Seq<u8>) {
        (self.name@, self.value@)
    }
}

impl Header {
    /// A header of the given name and value.
    pub fn new(name: &str, value: &[u8]) -> (h: Header)
        ensures
            h@ == (name@, value@),
    {
        Header { name: String::from_str(name), value: vstd::slice::slice_to_vec(value) }
    }

    /// A copy of this header.
    pub fn duplicate(&self) -> (h: Header)
        ensures
            h@ == self@,
    {
        Header { name: self.name.clone(), value: self.value.clone() }
    }
}

/// The views of a list of headers, in order.
pub open spec fn pairs_of(list: Seq<Header>) -> Pairs {
    list.map_values(|h: Header| h@)
}

/// The first place at which a name stands in a list, or the list's length
/// where it stands nowhere.
pub open spec fn position(s: Pairs, name: Seq<char>) -> int
    decreases s.len(),
{
    if s.len() == 0 {
        0
    } else if s[0].0 == name {
        0
    } else {
        1 + position(s.drop_first(), name)
    }
}

/// Whether a name stands in a list.
pub open spec fn has_name(s: Pairs, name: Seq<char>) -> bool {
    position(s, name) < s.len()
}

/// The value held under a name.
pub open spec fn lookup(s: Pairs, name: Seq<char>) -> Option<Seq<u8>> {
    if has_name(s, name) {
        Some(s[position(s, name)].1)
    } else {
        None
    }
}

/// The list after a value is stored under a name: in the place of the name
/// where it is present, at the end where it is not.
pub open spec fn put(s: Pairs, name: Seq<char>, value: Seq<u8>) -> Pairs {
    if has_name(s, name) {
        s.update(position(s, name), (name, value))
    } else {
        s.push((name, value))
    }
}

/// The list without the first entry of a name.
pub open spec fn without(s: Pairs, name: Seq<char>) -> Pairs {
    if has_name(s, name) {
        s.remove(position(s, name))
    } else {
        s
    }
}

/// Whether no name stands twice in a list.
pub open spec fn distinct_names(s: Pairs) -> bool {
    forall|i: int, j: int| 0 <= i < j < s.len() ==> (#[trigger] s[i]).0 != (#[trigger] s[j]).0
}

/// A list of headers read in order into a set, a later value replacing an
/// earlier one of the same name.
pub open spec fn collect(list: Pairs) -> Pairs
    decreases list.len(),
{
    if list.len() == 0 {
        Seq::empty()
    } else {
        put(collect(list.drop_last()), list.last().0, list.last().1)
    }
}

/// The line of one header on the wire.
pub open spec fn header_line(h: (Seq<char>, Seq<u8>)) -> Seq<u8> {
    encode_utf8(h.0) + ": ".spec_bytes() + h.1 + "\r\n".spec_bytes()
}

/// The lines of a list of headers on the wire, in order.
pub open spec fn header_lines(s: Pairs) -> Seq<u8>
    decreases s.len(),
{
    if s.len() == 0 {
        Seq::empty()
    } else {
        header_lines(s.drop_last()) + header_line(s.last())
    }
}

/// The header set that is sent on in place of another: `Connection` holds
/// `Close`, whatever it held, and `Keep-Alive` is gone.
pub open spec fn forwarded(s: Pairs) -> Pairs {
    without(put(s, "Connection"@, "Close".spec_bytes()), "Keep-Alive"@)
}

/// What `position` finds: the first entry of the name, if there is one.
pub proof fn lemma_position(s: Pairs, name: Seq<char>)
    ensures
        0 <= position(s, name) <= s.len(),
        has_name(s, name) ==> s[position(s, name)].0 == name,
        forall|j: int| 0 <= j < position(s, name) ==> (#[trigger] s[j]).0 != name,
    decreases s.len(),
{
    if s.len() > 0 && s[0].0 != name {
        let rest = s.drop_first();
        lemma_position(rest, name);
        assert forall|j: int| 0 <= j < position(s, name) implies (#[trigger] s[j]).0 != name by {
            if j > 0 {
                assert(s[j] == rest[j - 1]);
            }
        }
    }
}

/// The first entry of a name is where `position` says.
pub proof fn lemma_position_is(s: Pairs, name: Seq<char>, i: int)
    requires
        0 <= i <= s.len(),
        i < s.len() ==> s[i].0 == name,
        forall|j: int| 0 <= j < i ==> (#[trigger] s[j]).0 != name,
    ensures
        position(s, name) == i,
{
    lemma_position(s, name);
    let p = position(s, name);
    if p < i {
        assert(s[p].0 != name);
    }
}

/// Storing a value keeps the names distinct; the name then holds the value,
/// and every other name holds what it held.
pub proof fn lemma_put(s: Pairs, name: Seq<char>, value: Seq<u8>)
    requires
        distinct_names(s),
    ensures
        distinct_names(put(s, name, value)),
        lookup(put(s, name, value), name) == Some(value),
        forall|other: Seq<char>|
            other != name ==> #[trigger] lookup(put(s, name, value), other) == lookup(s, other),
{
    lemma_position(s, name);
    let p = position(s, name);
    let t = put(s, name, value);
    assert(distinct_names(t)) by {
        assert forall|i: int, j: int| 0 <= i < j < t.len() implies (#[trigger] t[i]).0 != (
        #[trigger] t[j]).0 by {
            if p < s.len() {
                assert(t[i].0 == s[i].0 && t[j].0 == s[j].0);
            } else {
                if j == s.len() {
                    assert(s[i].0 != name);
                } else {
                    assert(t[i] == s[i] && t[j] == s[j]);
                }
            }
        }
    }
    assert forall|j: int| 0 <= j < p implies (#[trigger] t[j]).0 != name by {
        assert(t[j] == s[j]);
    }
    lemma_position_is(t, name, p);
    assert forall|other: Seq<char>| other != name implies #[trigger] lookup(t, other) == lookup(
        s,
        other,
    ) by {
        lemma_position(s, other);
        let q = position(s, other);
        assert forall|j: int| 0 <= j < q implies (#[trigger] t[j]).0 != other by {
            assert(s[j].0 != other);
        }
        if q < s.len() {
            assert(q != p);
            assert(t[q] == s[q]);
            lemma_position_is(t, other, q);
        } else {
            assert forall|j: int| 0 <= j < t.len() implies (#[trigger] t[j]).0 != other by {
                if j < s.len() {
                    assert(s[j].0 != other);
                }
            }
            lemma_position_is(t, other, t.len() as int);
        }
    }
}

/// Removing a name keeps the names distinct; the name is then absent, and
/// every other name holds what it held.
pub proof fn lemma_without(s: Pairs, name: Seq<char>)
    requires
        distinct_names(s),
    ensures
        distinct_names(without(s, name)),
        lookup(without(s, name), name) is None,
        forall|other: Seq<char>|
            other != name ==> #[trigger] lookup(without(s, name), other) == lookup(s, other),
{
    lemma_position(s, name);
    let p = position(s, name);
    let t = without(s, name);
    if p < s.len() {
        assert forall|j: int| 0 <= j < t.len() implies (#[trigger] t[j]).0 != name by {
            if j < p {
                assert(t[j] == s[j]);
            } else {
                assert(t[j] == s[j + 1]);
                assert(s[p].0 != s[j + 1].0);
            }
        }
        assert(distinct_names(t)) by {
            assert forall|i: int, j: int| 0 <= i < j < t.len() implies (#[trigger] t[i]).0 != (
            #[trigger] t[j]).0 by {
                let si = if i < p { i } else { i + 1 };
                let sj = if j < p { j } else { j + 1 };
                assert(t[i] == s[si] && t[j] == s[sj]);
            }
        }
    }
    lemma_position_is(t, name, t.len() as int);
    assert forall|other: Seq<char>| other != name implies #[trigger] lookup(t, other) == lookup(
        s,
        other,
    ) by {
        if p < s.len() {
            lemma_position(s, other);
            let q = position(s, other);
            let tq = if q < p { q } else { q - 1 };
            assert(q != p);
            assert forall|j: int| 0 <= j < tq implies (#[trigger] t[j]).0 != other by {
                if j < p {
                    assert(t[j] == s[j]);
                } else {
                    assert(t[j] == s[j + 1]);
                }
            }
            if q < s.len() {
                assert(t[tq] == s[q]);
            }
            lemma_position_is(t, other, tq);
        }
    }
}

/// What is sent on in place of a header set: `Connection` holds `Close`,
/// `Keep-Alive` is absent, every other name holds what it held, and to send
/// the result on again changes nothing.
pub proof fn lemma_forwarded(s: Pairs)
    requires
        distinct_names(s),
    ensures
        distinct_names(forwarded(s)),
        lookup(forwarded(s), "Connection"@) == Some("Close".spec_bytes()),
        lookup(forwarded(s), "Keep-Alive"@) is None,
        forall|name: Seq<char>|
            name != "Connection"@ && name != "Keep-Alive"@ ==> #[trigger] lookup(
                forwarded(s),
                name,
            ) == lookup(s, name),
        forwarded(forwarded(s)) == forwarded(s),
{
    reveal_strlit("Connection");
    reveal_strlit("Keep-Alive");
    assert("Connection"@[0] != "Keep-Alive"@[0]);
    let close = "Close".spec_bytes();
    let kept = put(s, "Connection"@, close);
    lemma_put(s, "Connection"@, close);
    lemma_without(kept, "Keep-Alive"@);
    let sent = forwarded(s);
    lemma_position(sent, "Connection"@);
    lemma_position(sent, "Keep-Alive"@);
    assert(put(sent, "Connection"@, close) =~= sent);
}

/// A list read into a set has distinct names.
pub proof fn lemma_collect_distinct(list: Pairs)
    ensures
        distinct_names(collect(list)),
    decreases list.len(),
{
    if list.len() > 0 {
        lemma_collect_distinct(list.drop_last());
        lemma_put(collect(list.drop_last()), list.last().0, list.last().1);
    }
}

/// The header set of a message.
#[derive(Debug, PartialEq, Eq)]
pub struct Headers {
    pub(crate) entries: Vec<Header>,
}

impl View for Headers {
    type V = Pairs;

    closed spec fn view(&self) -> Pairs {
        pairs_of(self.entries@)
    }
}

impl Headers {
    /// What every header set keeps: no name stands in it twice.
    #[verifier::type_invariant]
    pub open spec fn well_formed(&self) -> bool {
        distinct_names(self@)
    }

    /// The empty header set.
    pub fn new() -> (h: Headers)
        ensures
            h@ == Pairs::empty(),
    {
        let h = Headers { entries: Vec::new() };
        assert(h@ =~= Pairs::empty());
        h
    }

    /// The number of names.
    pub fn len(&self) -> (n: usize)
        ensures
            n == self@.len(),
    {
        self.entries.len()
    }

    /// The header at a place.
    pub fn entry(&self, i: usize) -> (h: &Header)
        requires
            i < self@.len(),
        ensures
            h@ == self@[i as int],
    {
        &self.entries[i]
    }

    /// The place of a name, or the number of names where it is absent.
    pub fn find(&self, name: &str) -> (i: usize)
        ensures
            i == position(self@, name@),
    {
        let mut i: usize = 0;
        while i < self.entries.len()
            invariant
                0 <= i <= self.entries.len(),
                forall|j: int| 0 <= j < i ==> (#[trigger] self@[j]).0 != name@,
            decreases self.entries.len() - i,
        {
            if str_eq(self.entries[i].name.as_str(), name) {
                proof {
                    lemma_position_is(self@, name@, i as int);
                }
                return i;
            }
            i += 1;
        }
        proof {
            lemma_position_is(self@, name@, i as int);
        }
        i
    }

    /// The value held under a name.
    pub fn get(&self, name: &str) -> (v: Option<&Vec<u8>>)
        ensures
            match v {
                Some(value) => lookup(self@, name@) == Some(value@),
                None => lookup(self@, name@) is None,
            },
    {
        let i = self.find(name);
        if i < self.entries.len() {
            Some(&self.entries[i].value)
        } else {
            None
        }
    }

    /// Whether a name is present.
    pub fn contains_key(&self, name: &str) -> (b: bool)
        ensures
            b == has_name(self@, name@),
    {
        self.find(name) < self.entries.len()
    }

    /// Stores a value under a name and returns the value that it replaces.
    pub fn insert(&mut self, name: String, value: Vec<u8>) -> (previous: Option<Vec<u8>>)
        ensures
            final(self)@ == put(old(self)@, name@, value@),
            match previous {
                Some(v) => lookup(old(self)@, name@) == Some(v@),
                None => lookup(old(self)@, name@) is None,
            },
    {
        proof {
            use_type_invariant(&*self);
            lemma_put(self@, name@, value@);
        }
        let i = self.find(name.as_str());
        let mut entries: Vec<Header> = Vec::new();
        core::mem::swap(&mut self.entries, &mut entries);
        let ghost before = entries@;
        entries.push(Header { name, value });
        let previous = if i < entries.len() - 1 {
            Some(entries.swap_remove(i).value)
        } else {
            None
        };
        assert(pairs_of(entries@) =~= put(pairs_of(before), name@, value@));
        self.entries = entries;
        previous
    }

    /// Takes a name out and returns the value that it held.
    pub fn remove(&mut self, name: &str) -> (previous: Option<Vec<u8>>)
        ensures
            final(self)@ == without(old(self)@, name@),
            match previous {
                Some(v) => lookup(old(self)@, name@) == Some(v@),
                None => lookup(old(self)@, name@) is None,
            },
    {
        proof {
            use_type_invariant(&*self);
            lemma_without(self@, name@);
        }
        let i = self.find(name);
        let mut entries: Vec<Header> = Vec::new();
        core::mem::swap(&mut self.entries, &mut entries);
        let ghost before = entries@;
        let previous = if i < entries.len() {
            Some(entries.remove(i).value)
        } else {
            None
        };
        assert(pairs_of(entries@) =~= without(pairs_of(before), name@));
        self.entries = entries;
        previous
    }

    /// A copy of this header set.
    pub fn duplicate(&self) -> (h: Headers)
        ensures
            h@ == self@,
    {
        proof {
            use_type_invariant(self);
        }
        let mut entries: Vec<Header> = Vec::new();
        let mut i: usize = 0;
        while i < self.entries.len()
            invariant
                0 <= i <= self.entries.len(),
                pairs_of(entries@) == pairs_of(self.entries@).take(i as int),
            decreases self.entries.len() - i,
        {
            let ghost copied = pairs_of(entries@);
            entries.push(self.entries[i].duplicate());
            assert(pairs_of(entries@) =~= copied.push(self.entries@[i as int]@));
            assert(pairs_of(entries@) =~= pairs_of(self.entries@).take(i + 1));
            i += 1;
        }
        assert(pairs_of(entries@) =~= pairs_of(self.entries@));
        Headers { entries }
    }

    /// The header set that is sent on in place of this one.
    pub fn forwarded(&self) -> (h: Headers)
        ensures
            h@ == forwarded(self@),
    {
        let mut h = self.duplicate();
        h.insert(String::from_str("Connection"), vstd::slice::slice_to_vec("Close".as_bytes()));
        h.remove("Keep-Alive");
        h
    }

    /// Appends the lines of the headers, in order.
    pub fn write_lines(&self, out: &mut Vec<u8>)
        ensures
            final(out)@ == old(out)@ + header_lines(self@),
    {
        let mut i: usize = 0;
        while i < self.entries.len()
            invariant
                0 <= i <= self.entries.len(),
                out@ == old(out)@ + header_lines(self@.take(i as int)),
            decreases self.entries.len() - i,
        {
            let ghost before = out@;
            let ghost done = self@.take(i as int);
            let h = &self.entries[i];
            out.extend_from_slice(h.name.as_str().as_bytes());
            out.extend_from_slice(": ".as_bytes());
            out.extend_from_slice(h.value.as_slice());
            out.extend_from_slice("\r\n".as_bytes());
            proof {
                let longer = self@.take(i + 1);
                assert(longer.drop_last() =~= done);
                assert(longer.last() == h@);
                assert(out@ =~= before + header_line(h@));
                assert(out@ =~= old(out)@ + header_lines(longer));
            }
            i += 1;
        }
        assert(self@.take(i as int) =~= self@);
    }

    /// Reads a list of headers in order into a set, a later value replacing
    /// an earlier one of the same name.
    pub fn from_list(list: &[Header]) -> (h: Headers)
        ensures
            h@ == collect(pairs_of(list@)),
    {
        let mut h = Headers::new();
        let mut i: usize = 0;
        while i < list.len()
            invariant
                0 <= i <= list.len(),
                h@ == collect(pairs_of(list@).take(i as int)),
            decreases list.len() - i,
        {
            let entry = list[i].duplicate();
            proof {
                let longer = pairs_of(list@).take(i + 1);
                assert(longer.drop_last() =~= pairs_of(list@).take(i as int));
                assert(longer.last() == list@[i as int]@);
            }
            h.insert(entry.name, entry.value);
            i += 1;
        }
        assert(pairs_of(list@).take(i as int) =~= pairs_of(list@));
        h
    }
}

} // verus!
