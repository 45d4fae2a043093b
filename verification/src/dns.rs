//! Reverse DNS for endpoints that were only ever seen as bare IP addresses.
//!
//! Most endpoints need no lookup at all: the `CONNECT` target or request URI already carries
//! the hostname the child asked for, which is more informative than a PTR record (PTR for an
//! S3 address is something like `s3-1-w.amazonaws.com`, not the bucket's regional endpoint).
//! Lookups therefore only happen for endpoints whose key parses as an IP address, and results
//! are cached so repeated addresses cost nothing.

use vstd::prelude::*;

use crate::address::IpAddress;
use crate::requests;
use crate::socks;
use crate::socks::normalize_host;
use crate::table::Table;
use crate::text;

verus! {

/// Cached reverse resolver.
///
/// Construction never fails hard: if the system resolver configuration cannot be read, the
/// resolver is simply disabled and every lookup returns `None`, leaving IP-keyed endpoints in
/// the report as addresses.
#[derive(Debug)]
pub struct ReverseResolver {
    enabled: bool,
    cache: Table<IpAddress, Option<String>>,
}

/// One record of an answer from the name system.
#[derive(Debug)]
pub enum Answer {
    /// A name that an address points to.
    Ptr(String),
    /// A record of another type.
    Other,
}

/// What the resolver says of an address without asking the name system.
#[derive(Debug)]
pub enum Lookup {
    /// Its name, or that it has none.
    Known(Option<String>),
    /// Ask, and hand the answer to [`ReverseResolver::answered`].
    Ask,
}

/// The first name among the records.
pub open spec fn first_ptr(records: Seq<Answer>) -> Option<Seq<char>>
    decreases records.len(),
{
    if records.len() == 0 {
        None
    } else {
        match records[0] {
            Answer::Ptr(name) => Some(name@),
            Answer::Other => first_ptr(records.skip(1)),
        }
    }
}

/// The hostname that an answer gives: the first name in it, without final dots and in lower case
/// so that it compares equal to hostnames taken from request targets, unless nothing is left.
pub open spec fn answered_name(records: Option<Seq<Answer>>) -> Option<Seq<char>> {
    match records {
        None => None,
        Some(records) => match first_ptr(records) {
            None => None,
            Some(name) => if socks::normalized(name).len() == 0 {
                None
            } else {
                Some(socks::normalized(name))
            },
        },
    }
}

/// The records of an answer that came.
pub open spec fn records_of(answers: Option<Vec<Answer>>) -> Option<Seq<Answer>> {
    match answers {
        Some(records) => Some(records@),
        None => None,
    }
}

/// Whether a name is in the form in which hosts are counted, so that it compares equal to
/// hostnames taken from request targets: not empty, without a final dot or a capital letter.
pub open spec fn is_plain(name: Seq<char>) -> bool {
    &&& name.len() > 0
    &&& name.last() != '.'
    &&& socks::normalized(name) == name
}

impl ReverseResolver {
    /// What is known of addresses.
    pub closed spec fn known(&self) -> Map<IpAddress, Option<Seq<char>>> {
        self.cache@.map_values(|name: Option<String>| text::of_string(name))
    }

    /// Whether the name system is asked.
    pub closed spec fn asks(&self) -> bool {
        self.enabled
    }

    /// The cache is sound.
    pub closed spec fn sound(&self) -> bool {
        self.cache.wf()
    }

    /// The cache is sound, and every name in it is in the form in which hosts are counted.
    pub open spec fn wf(&self) -> bool {
        &&& self.sound()
        &&& forall|ip: IpAddress|
            self.known().contains_key(ip) ==> (#[trigger] self.known()[ip] matches Some(name)
                ==> is_plain(name))
    }

    /// Builds a resolver from the system configuration, falling back to a disabled resolver where
    /// there is none that can be used.
    pub fn from_system(configured: bool) -> (r: Self)
        ensures
            r.wf(),
            r.asks() == configured,
            r.known() == Map::<IpAddress, Option<Seq<char>>>::empty(),
    {
        let r = ReverseResolver { enabled: configured, cache: Table::new() };
        assert(r.known() =~= Map::<IpAddress, Option<Seq<char>>>::empty());
        r
    }

    /// Creates a resolver that performs no lookups.
    pub fn disabled() -> (r: Self)
        ensures
            r.wf(),
            !r.asks(),
            r.known() == Map::<IpAddress, Option<Seq<char>>>::empty(),
    {
        ReverseResolver::from_system(false)
    }

    fn remember(&mut self, ip: IpAddress, name: &Option<String>)
        requires
            old(self).wf(),
            text::of_string(*name) matches Some(n) ==> is_plain(n),
        ensures
            final(self).wf(),
            final(self).asks() == old(self).asks(),
            final(self).known() == old(self).known().insert(ip, text::of_string(*name)),
    {
        let kept: Option<String> = match name {
            Some(s) => Some(s.clone()),
            None => None,
        };
        self.cache.insert(ip, kept);
        assert(self.known() =~= old(self).known().insert(ip, text::of_string(*name)));
    }

    /// Returns the PTR hostname for `ip` if it is known, `None` if there is none (or lookups are
    /// disabled), and otherwise that it has to be asked for.
    pub fn hostname(&mut self, ip: IpAddress) -> (r: Lookup)
        requires
            old(self).wf(),
        ensures
            final(self).wf(),
            final(self).asks() == old(self).asks(),
            if old(self).known().contains_key(ip) {
                &&& r matches Lookup::Known(name) && text::of_string(name) == old(self).known()[ip]
                &&& final(self).known() == old(self).known()
            } else if !old(self).asks() {
                &&& r == Lookup::Known(None)
                &&& final(self).known() == old(self).known().insert(ip, None)
            } else {
                &&& r is Ask
                &&& final(self).known() == old(self).known()
            },
            r matches Lookup::Known(Some(name)) ==> is_plain(name@),
    {
        if let Some(hit) = self.cache.get(&ip) {
            return Lookup::Known(
                match hit {
                    Some(name) => Some(name.clone()),
                    None => None,
                },
            );
        }
        if self.enabled {
            return Lookup::Ask;
        }
        self.remember(ip, &None);
        Lookup::Known(None)
    }

    /// Takes the answer of the name system, `None` where the lookup failed, and returns the PTR
    /// hostname for `ip` if it has one.
    ///
    /// The trailing dot of the PTR record is stripped so results compare equal to hostnames
    /// taken from request targets.
    pub fn answered(&mut self, ip: IpAddress, answers: Option<Vec<Answer>>) -> (r: Option<String>)
        requires
            old(self).wf(),
        ensures
            final(self).wf(),
            final(self).asks() == old(self).asks(),
            text::of_string(r) == answered_name(records_of(answers)),
            final(self).known() == old(self).known().insert(
                ip,
                answered_name(records_of(answers)),
            ),
            r matches Some(name) ==> is_plain(name@),
    {
        proof {
            answered_names_are_normalized(records_of(answers));
        }
        let name: Option<String> = match &answers {
            Some(records) => pick_name(records),
            None => None,
        };
        self.remember(ip, &name);
        name
    }
}

fn pick_name(records: &Vec<Answer>) -> (r: Option<String>)
    ensures
        text::of_string(r) == answered_name(Some(records@)),
{
    let mut i: usize = 0;
    assert(records@.skip(0) =~= records@);
    while i < records.len()
        invariant
            i <= records@.len(),
            first_ptr(records@) == first_ptr(records@.skip(i as int)),
        decreases records@.len() - i,
    {
        assert(records@.skip(i as int)[0] == records@[i as int]);
        assert(records@.skip(i as int).skip(1) =~= records@.skip(i + 1));
        if let Answer::Ptr(name) = &records[i] {
            let host: String = normalize_host(name.as_str());
            return if host.as_str().unicode_len() == 0 {
                None
            } else {
                Some(host)
            };
        }
        i += 1;
    }
    None
}

/// Names from the name system are in the form in which hosts are counted: they are not empty,
/// have no final dot, and no capital letters, so that counting under them again changes nothing.
pub proof fn answered_names_are_normalized(records: Option<Seq<Answer>>)
    ensures
        answered_name(records) matches Some(name) ==> is_plain(name),
{
    if let Some(name) = answered_name(records) {
        let raw = first_ptr(records->0)->0;
        let kept = text::trim_end(raw, '.');
        text::trimmed_ends_otherwise(raw, '.');
        text::lowered_is_stable(kept);
        assert(name.last() == text::lower(kept.last()));
        assert(text::trim_end(name, '.') == name);
    }
}

proof fn first_ptr_is_first(records: Seq<Answer>, k: int)
    requires
        0 <= k <= records.len(),
        forall|i: int| 0 <= i < k ==> (#[trigger] records[i]) is Other,
    ensures
        k < records.len() ==> (records[k] matches Answer::Ptr(name) ==> first_ptr(records) == Some(
            name@,
        )),
        k == records.len() ==> first_ptr(records) is None,
    decreases k,
{
    if k > 0 {
        let rest = records.skip(1);
        assert(records[0] is Other);
        assert forall|i: int| 0 <= i < k - 1 implies (#[trigger] rest[i]) is Other by {
            assert(rest[i] == records[i + 1]);
        }
        first_ptr_is_first(rest, k - 1);
        if k < records.len() {
            assert(rest[k - 1] == records[k]);
        }
    }
}

/// An answer gives the name of the first PTR record in it, wherever that stands, without its final
/// dots and in lower case, and nothing only where nothing is left of the name.
pub proof fn answers_give_their_first_name(
    given: Option<String>,
    records: Vec<Answer>,
    k: int,
    name: String,
)
    requires
        text::of_string(given) == answered_name(records_of(Some(records))),
        0 <= k < records@.len(),
        records@[k] == Answer::Ptr(name),
        forall|i: int| 0 <= i < k ==> (#[trigger] records@[i]) is Other,
    ensures
        given matches Some(host) ==> host@.len() > 0 && requests::is_host_of(host@, name@),
        given is None <==> (forall|i: int| 0 <= i < name@.len() ==> #[trigger] name@[i] == '.'),
{
    first_ptr_is_first(records@, k);
    requests::hosts_are_normalized(name@);
    let host = socks::normalized(name@);
    if host.len() > 0 {
        assert(name@[host.len() - 1] != '.');
    }
}

/// An answer without a PTR record gives no name, and neither does a lookup that failed.
pub proof fn other_answers_give_no_name(given: Option<String>, answers: Option<Vec<Answer>>)
    requires
        text::of_string(given) == answered_name(records_of(answers)),
        answers matches Some(records) ==> forall|i: int|
            0 <= i < records@.len() ==> (#[trigger] records@[i]) is Other,
    ensures
        given is None,
{
    if let Some(records) = answers {
        first_ptr_is_first(records@, records@.len() as int);
    }
}

} // verus!
