//! Identity and value types for discovered services.
//!
//! A `ServiceKey` is the composite identity of a discovered instance: instance
//! name, service type, domain, network interface index and protocol family.
//! Equality is exact string and integer match; case rules are left to the
//! responder.  A `ServiceInstance` is the browser's tracked record for one
//! key; a `ResolvedService` is the immutable value produced by a successful
//! resolution.

use vstd::prelude::*;

verus! {

/// Mathematical image of a `ServiceKey`: the five identifying components as
/// plain sequences and integers.
pub ghost struct KeyModel {
    pub name: Seq<char>,
    pub service_type: Seq<char>,
    pub domain: Seq<char>,
    pub interface: int,
    pub protocol: int,
}

/// Composite identity of a discovered service instance.
#[derive(Debug)]
pub struct ServiceKey {
    /// Instance name as delivered by the responder.
    pub name: String,
    /// Service type, e.g. `_http._tcp`.
    pub service_type: String,
    /// Browse domain, e.g. `local`.
    pub domain: String,
    /// Network interface index; negative means unspecified.
    pub interface: i32,
    /// Network protocol family; negative means unspecified.
    pub protocol: i32,
}

impl View for ServiceKey {
    type V = KeyModel;

    open spec fn view(&self) -> KeyModel {
        KeyModel {
            name: self.name@,
            service_type: self.service_type@,
            domain: self.domain@,
            interface: self.interface as int,
            protocol: self.protocol as int,
        }
    }
}

impl ServiceKey {
    /// Builds a key from its five components.
    pub fn new(name: String, service_type: String, domain: String, interface: i32, protocol: i32)
        -> (k: ServiceKey)
        ensures
            k@ == (KeyModel {
                name: name@,
                service_type: service_type@,
                domain: domain@,
                interface: interface as int,
                protocol: protocol as int,
            }),
    {
        ServiceKey { name, service_type, domain, interface, protocol }
    }

    /// Exact equality of two keys: component-wise string and integer match.
    pub fn key_eq(&self, other: &ServiceKey) -> (b: bool)
        ensures
            b == (self@ == other@),
    {
        let b = self.name == other.name && self.service_type == other.service_type
            && self.domain == other.domain && self.interface == other.interface
            && self.protocol == other.protocol;
        proof {
            if b {
                assert(self@ == other@);
            }
        }
        b
    }

    /// An independent copy of the key, identical in every component.
    pub fn duplicate(&self) -> (k: ServiceKey)
        ensures
            k@ == self@,
    {
        ServiceKey {
            name: self.name.clone(),
            service_type: self.service_type.clone(),
            domain: self.domain.clone(),
            interface: self.interface,
            protocol: self.protocol,
        }
    }
}

/// The raw name/type/domain triple of a browse notification, as the responder
/// delivered it.
#[derive(Debug)]
pub struct ServiceDescription {
    pub name: String,
    pub service_type: String,
    pub domain: String,
}

impl ServiceDescription {
    /// Packs the raw fields of one browse notification.
    pub fn new(name: String, service_type: String, domain: String) -> (d: ServiceDescription)
        ensures
            d.name@ == name@,
            d.service_type@ == service_type@,
            d.domain@ == domain@,
    {
        ServiceDescription { name, service_type, domain }
    }
}

/// One tracked record of the browser: a key together with the logical time of
/// its discovery and a staleness mark.
#[derive(Debug)]
pub struct ServiceInstance {
    pub key: ServiceKey,
    /// Logical tick at which the instance was first seen, refreshed when the
    /// responder re-delivers a `New` notification for the same key.
    pub discovered_at: u64,
    /// Set when the record is known to predate a responder cache restart.
    pub stale: bool,
}

/// One `key=value` pair of a TXT record.
#[derive(Debug)]
pub struct TxtEntry {
    pub key: String,
    pub value: String,
}

/// Mathematical image of a `ResolvedService`.
pub ghost struct ResolvedModel {
    pub host: Seq<char>,
    pub address: Seq<char>,
    pub port: int,
    pub domain: Seq<char>,
    pub txt: Seq<(Seq<char>, Seq<char>)>,
}

/// Connectable details of one successfully resolved instance: host name,
/// address in textual form, port, domain, and the TXT key/value pairs.
/// Never mutated after creation.
#[derive(Debug)]
pub struct ResolvedService {
    pub host: String,
    pub address: String,
    pub port: u16,
    pub domain: String,
    pub txt: Vec<TxtEntry>,
}

impl View for ResolvedService {
    type V = ResolvedModel;

    open spec fn view(&self) -> ResolvedModel {
        ResolvedModel {
            host: self.host@,
            address: self.address@,
            port: self.port as int,
            domain: self.domain@,
            txt: self.txt@.map_values(|e: TxtEntry| (e.key@, e.value@)),
        }
    }
}

/// TXT keys are unique within one resolved service; order is irrelevant.
pub open spec fn txt_keys_unique(txt: Seq<(Seq<char>, Seq<char>)>) -> bool {
    forall|i: int, j: int| 0 <= i < j < txt.len() ==> txt[i].0 != txt[j].0
}

/// `e` carries the key and value of the first entry with that key among the
/// first `bound` entries of `txt`.
pub open spec fn first_occurrence_within(txt: Seq<TxtEntry>, bound: int, e: TxtEntry) -> bool {
    exists|p: int|
        {
            &&& 0 <= p < bound
            &&& (#[trigger] txt[p]).key@ == e.key@
            &&& txt[p].value@ == e.value@
            &&& forall|p2: int| 0 <= p2 < p ==> txt[p2].key@ != e.key@
        }
}

/// Some entry of `u` carries key `k`.
pub open spec fn txt_key_represented(u: Seq<TxtEntry>, k: Seq<char>) -> bool {
    exists|q: int| 0 <= q < u.len() && (#[trigger] u[q]).key@ == k
}

/// A first occurrence within some prefix is one within any longer prefix.
proof fn lemma_first_occurrence_wider(txt: Seq<TxtEntry>, b1: int, b2: int, e: TxtEntry)
    requires
        first_occurrence_within(txt, b1, e),
        b1 <= b2,
    ensures
        first_occurrence_within(txt, b2, e),
{
    let p = choose|p: int|
        {
            &&& 0 <= p < b1
            &&& (#[trigger] txt[p]).key@ == e.key@
            &&& txt[p].value@ == e.value@
            &&& forall|p2: int| 0 <= p2 < p ==> txt[p2].key@ != e.key@
        };
    assert(0 <= p < b2 && txt[p].key@ == e.key@ && txt[p].value@ == e.value@);
}

impl ResolvedService {
    /// Well-formedness: no TXT key occurs twice.
    pub open spec fn wf(&self) -> bool {
        txt_keys_unique(self@.txt)
    }

    /// Builds a resolved-service value, dropping every TXT entry whose key
    /// was already present earlier in the list, so that keys are unique:
    /// each kept pair is the first occurrence of its key, and every key of
    /// the input is represented.
    pub fn new(host: String, address: String, port: u16, domain: String, txt: Vec<TxtEntry>)
        -> (r: ResolvedService)
        ensures
            r.wf(),
            r@.host == host@,
            r@.address == address@,
            r@.port == port as int,
            r@.domain == domain@,
            forall|q: int|
                0 <= q < r.txt@.len() ==> first_occurrence_within(
                    txt@,
                    txt@.len() as int,
                    #[trigger] r.txt@[q],
                ),
            forall|p: int|
                0 <= p < txt@.len() ==> txt_key_represented(r.txt@, (#[trigger] txt@[p]).key@),
    {
        let mut unique: Vec<TxtEntry> = Vec::new();
        let mut i: usize = 0;
        while i < txt.len()
            invariant
                0 <= i <= txt.len(),
                forall|p: int, q: int|
                    0 <= p < q < unique@.len() ==> unique@[p].key@ != unique@[q].key@,
                forall|q: int|
                    0 <= q < unique@.len() ==> first_occurrence_within(
                        txt@,
                        i as int,
                        #[trigger] unique@[q],
                    ),
                forall|p: int|
                    0 <= p < i ==> txt_key_represented(unique@, (#[trigger] txt@[p]).key@),
            decreases txt.len() - i,
        {
            let entry = &txt[i];
            let mut seen = false;
            let mut j: usize = 0;
            while j < unique.len()
                invariant
                    0 <= j <= unique.len(),
                    seen == (exists|q: int| 0 <= q < j && unique@[q].key@ == entry.key@),
                decreases unique.len() - j,
            {
                if unique[j].key == entry.key {
                    seen = true;
                }
                j += 1;
            }
            let ghost pre = unique@;
            if !seen {
                unique.push(TxtEntry { key: entry.key.clone(), value: entry.value.clone() });
                proof {
                    // The appended pair is the first occurrence of its key:
                    // were the key present earlier, it would already have a
                    // representative and `seen` would hold.
                    assert forall|p2: int| 0 <= p2 < i implies txt@[p2].key@ != entry.key@ by {
                        if txt@[p2].key@ == entry.key@ {
                            assert(txt_key_represented(pre, txt@[p2].key@));
                            let q = choose|q: int|
                                0 <= q < pre.len() && (#[trigger] pre[q]).key@ == txt@[p2].key@;
                            assert(q < j);
                        }
                    }
                    let last = unique@[pre.len() as int];
                    assert(last.key@ == txt@[i as int].key@);
                    assert(last.value@ == txt@[i as int].value@);
                    assert(first_occurrence_within(txt@, i + 1, last));
                }
            }
            proof {
                assert forall|q: int| 0 <= q < unique@.len() implies first_occurrence_within(
                    txt@,
                    i + 1,
                    #[trigger] unique@[q],
                ) by {
                    if q < pre.len() {
                        assert(unique@[q] == pre[q]);
                        lemma_first_occurrence_wider(txt@, i as int, i + 1, unique@[q]);
                    }
                }
                assert forall|p: int| 0 <= p < i + 1 implies txt_key_represented(
                    unique@,
                    (#[trigger] txt@[p]).key@,
                ) by {
                    if p < i {
                        assert(txt_key_represented(pre, txt@[p].key@));
                        let q = choose|q: int|
                            0 <= q < pre.len() && (#[trigger] pre[q]).key@ == txt@[p].key@;
                        assert(unique@[q].key@ == txt@[p].key@);
                    } else {
                        if seen {
                            let q = choose|q: int|
                                0 <= q < pre.len() && pre[q].key@ == txt@[i as int].key@;
                            assert(unique@[q].key@ == txt@[p].key@);
                        } else {
                            assert(unique@[pre.len() as int].key@ == txt@[p].key@);
                        }
                    }
                }
            }
            i += 1;
        }
        let r = ResolvedService { host, address, port, domain, txt: unique };
        proof {
            assert forall|p: int, q: int| 0 <= p < q < r@.txt.len() implies r@.txt[p].0
                != r@.txt[q].0 by {
                assert(r@.txt[p].0 == r.txt@[p].key@);
                assert(r@.txt[q].0 == r.txt@[q].key@);
            }
        }
        r
    }

    /// Looks a TXT key up; returns its value when the key is present.
    pub fn txt_value(&self, key: &String) -> (r: Option<&String>)
        ensures
            match r {
                Some(v) => exists|q: int|
                    0 <= q < self@.txt.len() && self@.txt[q].0 == key@ && self@.txt[q].1 == v@,
                None => forall|q: int| 0 <= q < self@.txt.len() ==> self@.txt[q].0 != key@,
            },
    {
        let mut j: usize = 0;
        while j < self.txt.len()
            invariant
                0 <= j <= self.txt.len(),
                forall|q: int| 0 <= q < j ==> self@.txt[q].0 != key@,
            decreases self.txt.len() - j,
        {
            proof {
                assert(self@.txt[j as int] == (self.txt@[j as int].key@, self.txt@[j as int].value@));
            }
            if self.txt[j].key == *key {
                return Some(&self.txt[j].value);
            }
            j += 1;
        }
        None
    }
}

} // verus!
