//! Which names the resolver answers, and with what.
//!
//! A name is answered when its rightmost label is one of the local top-level
//! domains, whether or not a site is linked under it: whether a site exists
//! is for the HTTP side to say.

use vstd::prelude::*;
use vstd::string::StringSliceAdditionalSpecFns;
use vstd::utf8::encode_utf8;
use hickory_proto::rr::Name;
use crate::text::{bytes_eq, lemma_same_bytes_same_chars, views_of};

verus! {

/// `hickory_proto::rr::Name`, a domain name as the DNS library holds it.
/// Nothing is known of what is inside a value but what the items below say.
#[verifier::external_type_specification]
#[verifier::external_body]
pub struct ExName(Name);

/// The labels that `hickory_proto::rr::Name::iter` walks for `name`, from the
/// leftmost to the rightmost; the root is no label.
pub uninterp spec fn name_labels(name: Name) -> Seq<Seq<u8>>;

/// Calls `hickory_proto::rr::Name::iter` and takes the last item of the walk
/// with `Iterator::last`. Claims that this is the rightmost of the name's
/// labels, copied byte for byte, and that there is none exactly when the name
/// has no label.
#[verifier::external_body]
fn last_label(name: &Name) -> (r: Option<Vec<u8>>)
    ensures
        match r {
            Some(label) => name_labels(*name).len() > 0 && label@ == name_labels(*name).last(),
            None => name_labels(*name).len() == 0,
        },
{
    match name.iter().last() {
        Some(label) => Some(label.to_vec()),
        None => None,
    }
}

/// How long an answer may be kept, in seconds.
pub const ANSWER_TTL: u32 = 300;

/// Whether `label` is one of `tlds`, byte for byte.
pub open spec fn tld_allowed(tlds: Seq<Seq<char>>, label: Seq<u8>) -> bool {
    exists|i: int| 0 <= i < tlds.len() && encode_utf8(#[trigger] tlds[i]) == label
}

/// Whether a name with these labels is answered: it has a rightmost label,
/// and that label is one of `tlds`.
pub open spec fn supported(tlds: Seq<Seq<char>>, labels: Seq<Seq<u8>>) -> bool {
    labels.len() > 0 && tld_allowed(tlds, labels.last())
}

/// Whether the answer says that the name exists.
#[derive(Clone, Copy, Debug, PartialEq, Eq, Structural)]
pub enum ResponseCode {
    NoError,
    NXDomain,
}

/// One address record of an answer.
#[derive(Clone, Copy, Debug)]
pub struct AddressRecord {
    /// The IPv4 address, octet by octet.
    pub address: [u8; 4],
    /// How long the record may be kept, in seconds.
    pub ttl: u32,
}

/// What the resolver answers to a query.
#[derive(Debug)]
pub struct DnsAnswer {
    pub code: ResponseCode,
    pub authoritative: bool,
    pub answers: Vec<AddressRecord>,
}

/// The answer to a query for a name: one record with `address` where the name
/// is answered, no record and `NXDomain` where it is not. Either way the
/// answer is authoritative.
pub open spec fn answers_as(answer: DnsAnswer, address: [u8; 4], is_supported: bool) -> bool {
    &&& answer.authoritative
    &&& is_supported ==> {
        &&& answer.code == ResponseCode::NoError
        &&& answer.answers@.len() == 1
        &&& answer.answers@[0].address == address
        &&& answer.answers@[0].ttl == ANSWER_TTL
    }
    &&& !is_supported ==> {
        &&& answer.code == ResponseCode::NXDomain
        &&& answer.answers@.len() == 0
    }
}

/// Answers the queries for the names under the local top-level domains.
pub struct DnsHandler {
    address: [u8; 4],
    tlds: Vec<String>,
}

impl DnsHandler {
    /// The top-level domains whose names are answered.
    pub closed spec fn tlds(&self) -> Seq<Seq<char>> {
        views_of(self.tlds@)
    }

    /// The address that every answer gives.
    pub closed spec fn address(&self) -> [u8; 4] {
        self.address
    }

    /// A handler for `test` and `localhost` that answers with 127.0.0.1.
    pub fn new() -> (h: Self)
        ensures
            h.tlds() == seq!["test"@, "localhost"@],
            h.address()@ == seq![127u8, 0u8, 0u8, 1u8],
    {
        let mut tlds: Vec<String> = Vec::new();
        tlds.push("test".to_owned());
        tlds.push("localhost".to_owned());
        let h = DnsHandler { address: [127, 0, 0, 1], tlds };
        assert(h.tlds() =~= seq!["test"@, "localhost"@]);
        assert(h.address()@ =~= seq![127u8, 0u8, 0u8, 1u8]);
        h
    }

    /// The handler with `tlds` in place of its top-level domains.
    pub fn with_tlds(self, tlds: Vec<&str>) -> (h: Self)
        ensures
            h.tlds() == Seq::new(tlds@.len(), |i: int| tlds@[i]@),
            h.address() == self.address(),
    {
        let mut owned: Vec<String> = Vec::new();
        let mut i: usize = 0;
        while i < tlds.len()
            invariant
                i <= tlds.len(),
                owned.len() == i,
                forall|j: int| 0 <= j < i ==> owned[j]@ == tlds[j]@,
            decreases tlds.len() - i,
        {
            owned.push(tlds[i].to_owned());
            i += 1;
        }
        let h = DnsHandler { address: self.address, tlds: owned };
        assert(h.tlds() =~= Seq::new(tlds@.len(), |i: int| tlds@[i]@));
        h
    }

    /// The address that every answer gives.
    pub fn local_address(&self) -> (a: [u8; 4])
        ensures
            a == self.address(),
    {
        self.address
    }

    /// Whether `label` is one of the handler's top-level domains.
    pub fn allows_tld(&self, label: &[u8]) -> (b: bool)
        ensures
            b == tld_allowed(self.tlds(), label@),
    {
        let mut i: usize = 0;
        while i < self.tlds.len()
            invariant
                i <= self.tlds.len(),
                forall|j: int| 0 <= j < i ==> encode_utf8(#[trigger] self.tlds()[j]) != label@,
            decreases self.tlds.len() - i,
        {
            assert(self.tlds()[i as int] == self.tlds[i as int]@);
            if bytes_eq(self.tlds[i].as_str().as_bytes(), label) {
                return true;
            }
            i += 1;
        }
        false
    }

    /// Whether a query for `name` is answered.
    pub fn is_supported_domain(&self, name: &Name) -> (b: bool)
        ensures
            b == supported(self.tlds(), name_labels(*name)),
    {
        match last_label(name) {
            Some(label) => self.allows_tld(label.as_slice()),
            None => false,
        }
    }

    /// The answer to a query for a name whose rightmost label is
    /// `last_label`, or which has no label at all.
    pub fn answer_for_label(&self, last_label: Option<&[u8]>) -> (answer: DnsAnswer)
        ensures
            answers_as(
                answer,
                self.address(),
                last_label matches Some(label) && tld_allowed(self.tlds(), label@),
            ),
    {
        let is_supported = match last_label {
            Some(label) => self.allows_tld(label),
            None => false,
        };
        self.answer_when(is_supported)
    }

    /// The answer to a query for `name`.
    pub fn answer(&self, name: &Name) -> (answer: DnsAnswer)
        ensures
            answers_as(answer, self.address(), supported(self.tlds(), name_labels(*name))),
    {
        let is_supported = self.is_supported_domain(name);
        self.answer_when(is_supported)
    }

    fn answer_when(&self, is_supported: bool) -> (answer: DnsAnswer)
        ensures
            answers_as(answer, self.address(), is_supported),
    {
        if is_supported {
            let mut answers: Vec<AddressRecord> = Vec::new();
            answers.push(AddressRecord { address: self.address, ttl: ANSWER_TTL });
            DnsAnswer { code: ResponseCode::NoError, authoritative: true, answers }
        } else {
            DnsAnswer { code: ResponseCode::NXDomain, authoritative: true, answers: Vec::new() }
        }
    }
}

/// Only the rightmost label counts: two names that end in the same label are
/// both answered or both not, whatever stands in front.
pub proof fn lemma_only_rightmost_label_counts(
    tlds: Seq<Seq<char>>,
    front: Seq<Seq<u8>>,
    other_front: Seq<Seq<u8>>,
    last: Seq<u8>,
)
    ensures
        supported(tlds, front.push(last)) == supported(tlds, other_front.push(last)),
        supported(tlds, front.push(last)) == tld_allowed(tlds, last),
{
    assert(front.push(last).last() == last);
    assert(other_front.push(last).last() == last);
}

/// With `test` as the only top-level domain, every name that ends in `test`
/// is answered and no name that ends in `com` is, whatever stands in front.
pub proof fn lemma_test_is_answered_and_com_is_not(front: Seq<Seq<u8>>)
    ensures
        supported(seq!["test"@], front.push(encode_utf8("test"@))),
        !supported(seq!["test"@], front.push(encode_utf8("com"@))),
{
    let tlds = seq!["test"@];
    lemma_only_rightmost_label_counts(tlds, front, front, encode_utf8("test"@));
    lemma_only_rightmost_label_counts(tlds, front, front, encode_utf8("com"@));
    assert(encode_utf8(tlds[0]) == encode_utf8("test"@));
    assert(tld_allowed(tlds, encode_utf8("test"@)));
    assert(!tld_allowed(tlds, encode_utf8("com"@))) by {
        reveal_strlit("test");
        reveal_strlit("com");
        assert("test"@.len() != "com"@.len());
        lemma_same_bytes_same_chars("test"@, "com"@);
        if tld_allowed(tlds, encode_utf8("com"@)) {
            let i = choose|i: int|
                0 <= i < tlds.len() && encode_utf8(#[trigger] tlds[i]) == encode_utf8("com"@);
            assert(tlds[i] == "test"@);
        }
    }
}

} // verus!
