//! What holds of the manager whatever is done with it.
//!
//! Everything here is stated over [`ManagerView`], the model in which the
//! contracts of [`crate::site::SiteManager`] are written, so that it holds of
//! every manager that the executable code can reach.

use vstd::prelude::*;
use vstd::relations::injective_on;
use vstd::set_lib::{lemma_map_size, lemma_set_disjoint_lens};
use crate::fs::EntryKind;
use crate::path::join_spec;
use crate::registry::detect_spec;
use crate::site::{domain_of, fresh_site, lemma_domain_of_injective, ManagerView, SiteError};

verus! {

/// One thing that can be asked of the manager.
pub enum Operation {
    Park { path: Seq<char> },
    Unpark { path: Seq<char> },
    Link { domain: Seq<char>, path: Seq<char> },
    Unlink { domain: Seq<char> },
    Secure { domain: Seq<char> },
    Unsecure { domain: Seq<char> },
    Isolate { domain: Seq<char>, version: Seq<char> },
    Unisolate { domain: Seq<char> },
    Scan { path: Seq<char> },
}

/// The manager after `op`, asked while the file system is `fs`.
pub open spec fn step(
    manager: ManagerView,
    fs: Map<Seq<char>, EntryKind>,
    op: Operation,
) -> ManagerView {
    match op {
        Operation::Park { path } => manager.park(fs, path).0,
        Operation::Unpark { path } => manager.unpark(path).0,
        Operation::Link { domain, path } => manager.link(fs, domain, path).0,
        Operation::Unlink { domain } => manager.unlink(domain).0,
        Operation::Secure { domain } => manager.set_secure(domain, true).0,
        Operation::Unsecure { domain } => manager.set_secure(domain, false).0,
        Operation::Isolate { domain, version } => manager.set_php_version(
            domain,
            Some(version),
        ).0,
        Operation::Unisolate { domain } => manager.set_php_version(domain, None).0,
        Operation::Scan { path } => if manager.parked.contains(path) {
            manager.scan(fs, path)
        } else {
            manager
        },
    }
}

/// Whatever is asked of the manager, every site stays stored under its own
/// domain.
pub proof fn lemma_step_keeps_sites_under_their_domains(
    manager: ManagerView,
    fs: Map<Seq<char>, EntryKind>,
    op: Operation,
)
    requires
        manager.wf(),
    ensures
        step(manager, fs, op).wf(),
{
    let after = step(manager, fs, op);
    assert forall|d: Seq<char>| after.sites.contains_key(d) implies (#[trigger] after.sites[d]).domain
        == d by {
        if manager.sites.contains_key(d) {
            assert(manager.sites[d].domain == d);
        }
        match op {
            Operation::Scan { path } => {
                if manager.parked.contains(path) && !manager.sites.contains_key(d) {
                    let name = choose|name: Seq<char>| #[trigger]
                        manager.scan_links(fs, path, name) && d == domain_of(name, manager.tld);
                    assert(d.take(d.len() - manager.tld.len()) =~= name);
                }
            },
            _ => {},
        }
    }
}

/// No operation changes the set of drivers or the suffix of the domains.
pub proof fn lemma_step_keeps_configuration(
    manager: ManagerView,
    fs: Map<Seq<char>, EntryKind>,
    op: Operation,
)
    ensures
        step(manager, fs, op).drivers == manager.drivers,
        step(manager, fs, op).tld == manager.tld,
{
}

/// A link that succeeds stores the driver that detection finds for the
/// directory in the file system of that moment.
pub proof fn lemma_link_stores_detected_driver(
    manager: ManagerView,
    fs: Map<Seq<char>, EntryKind>,
    domain: Seq<char>,
    path: Seq<char>,
)
    requires
        manager.link(fs, domain, path).1 is Ok,
    ensures
        detect_spec(manager.drivers, fs, path) is Some,
        manager.link(fs, domain, path).0.sites.contains_key(domain),
        manager.link(fs, domain, path).0.sites[domain] == fresh_site(
            domain,
            path,
            detect_spec(manager.drivers, fs, path)->0,
        ),
{
}

/// A site keeps its driver and its directory for as long as it is linked:
/// whatever is asked of the manager, and whatever the file system has become
/// by then, a site that is there before and after has the driver and the
/// directory that it had.
pub proof fn lemma_driver_stays_with_site(
    manager: ManagerView,
    later_fs: Map<Seq<char>, EntryKind>,
    op: Operation,
    domain: Seq<char>,
)
    requires
        manager.sites.contains_key(domain),
        step(manager, later_fs, op).sites.contains_key(domain),
    ensures
        step(manager, later_fs, op).sites[domain].driver == manager.sites[domain].driver,
        step(manager, later_fs, op).sites[domain].root_dir == manager.sites[domain].root_dir,
        step(manager, later_fs, op).sites[domain].domain == manager.sites[domain].domain,
{
}

/// Linking a domain that is linked changes nothing and fails; where the
/// path exists, it fails because the domain is taken.
pub proof fn lemma_link_of_linked_domain_is_refused(
    manager: ManagerView,
    fs: Map<Seq<char>, EntryKind>,
    domain: Seq<char>,
    path: Seq<char>,
)
    requires
        manager.sites.contains_key(domain),
    ensures
        manager.link(fs, domain, path).0 == manager,
        manager.link(fs, domain, path).1 is Err,
        fs.contains_key(path) ==> manager.link(fs, domain, path).1 == Err::<(), SiteError>(
            SiteError::AlreadyLinked,
        ),
{
}

/// An operation on one domain leaves the sites of all other domains as they
/// are.
pub proof fn lemma_other_sites_are_untouched(
    manager: ManagerView,
    fs: Map<Seq<char>, EntryKind>,
    op: Operation,
    other: Seq<char>,
)
    requires
        match op {
            Operation::Link { domain, .. } => domain != other,
            Operation::Unlink { domain } => domain != other,
            Operation::Secure { domain } => domain != other,
            Operation::Unsecure { domain } => domain != other,
            Operation::Isolate { domain, .. } => domain != other,
            Operation::Unisolate { domain } => domain != other,
            Operation::Park { .. } => true,
            Operation::Unpark { .. } => true,
            Operation::Scan { .. } => manager.sites.contains_key(other),
        },
    ensures
        step(manager, fs, op).sites.contains_key(other) == manager.sites.contains_key(other),
        manager.sites.contains_key(other) ==> step(manager, fs, op).sites[other]
            == manager.sites[other],
{
}

/// Securing a site and then unsecuring it leaves the manager as it was, if
/// the site was not secure before; both succeed.
pub proof fn lemma_secure_then_unsecure_restores(manager: ManagerView, domain: Seq<char>)
    requires
        manager.sites.contains_key(domain),
        !manager.sites[domain].secure,
    ensures
        manager.set_secure(domain, true).1 is Ok,
        manager.set_secure(domain, true).0.sites[domain].secure,
        manager.set_secure(domain, true).0.set_secure(domain, false).1 is Ok,
        manager.set_secure(domain, true).0.set_secure(domain, false).0 == manager,
{
    let once = manager.set_secure(domain, true).0;
    let twice = once.set_secure(domain, false).0;
    assert(twice.sites =~= manager.sites);
}

/// The flag for TLS of a domain that is not linked cannot be set or cleared:
/// both fail, and the manager stays as it is.
pub proof fn lemma_secure_needs_linked_domain(manager: ManagerView, domain: Seq<char>, secure: bool)
    requires
        !manager.sites.contains_key(domain),
    ensures
        manager.set_secure(domain, secure) == (
            manager,
            Err::<(), SiteError>(SiteError::NotLinked),
        ),
{
}

/// Whether `domain` can be linked to `path` in `manager`.
pub open spec fn linkable(
    manager: ManagerView,
    fs: Map<Seq<char>, EntryKind>,
    domain: Seq<char>,
    path: Seq<char>,
) -> bool {
    &&& fs.contains_key(path)
    &&& !manager.sites.contains_key(domain)
    &&& detect_spec(manager.drivers, fs, path) is Some
}

/// The manager after the links of `domains` to `paths`, one after the
/// other.
pub open spec fn link_all(
    manager: ManagerView,
    fs: Map<Seq<char>, EntryKind>,
    domains: Seq<Seq<char>>,
    paths: Seq<Seq<char>>,
) -> ManagerView
    recommends
        domains.len() == paths.len(),
    decreases domains.len(),
{
    if domains.len() == 0 {
        manager
    } else {
        link_all(
            manager.link(fs, domains[0], paths[0]).0,
            fs,
            domains.drop_first(),
            paths.drop_first(),
        )
    }
}

/// Links of distinct free domains do not stand in each other's way: made
/// one after the other, in whatever order they are listed, each of them
/// stores the site that it would store alone, and nothing else changes.
pub proof fn lemma_links_of_distinct_domains_all_succeed(
    manager: ManagerView,
    fs: Map<Seq<char>, EntryKind>,
    domains: Seq<Seq<char>>,
    paths: Seq<Seq<char>>,
)
    requires
        domains.len() == paths.len(),
        domains.no_duplicates(),
        forall|i: int| 0 <= i < domains.len() ==> linkable(manager, fs, #[trigger] domains[i], paths[i]),
    ensures
        forall|i: int|
            0 <= i < domains.len() ==> link_all(manager, fs, domains, paths).sites.contains_key(
                #[trigger] domains[i],
            ) && link_all(manager, fs, domains, paths).sites[domains[i]] == fresh_site(
                domains[i],
                paths[i],
                detect_spec(manager.drivers, fs, paths[i])->0,
            ),
        forall|d: Seq<char>| #[trigger]
            link_all(manager, fs, domains, paths).sites.contains_key(d)
                <==> manager.sites.contains_key(d) || domains.contains(d),
        forall|d: Seq<char>|
            manager.sites.contains_key(d) ==> #[trigger] link_all(manager, fs, domains, paths).sites[d]
                == manager.sites[d],
        link_all(manager, fs, domains, paths).parked == manager.parked,
        link_all(manager, fs, domains, paths).drivers == manager.drivers,
        link_all(manager, fs, domains, paths).tld == manager.tld,
    decreases domains.len(),
{
    if domains.len() == 0 {
    } else {
        let first = manager.link(fs, domains[0], paths[0]);
        assert(linkable(manager, fs, domains[0], paths[0]));
        assert(first.1 is Ok);
        let next = first.0;
        let rest_d = domains.drop_first();
        let rest_p = paths.drop_first();
        assert forall|i: int| 0 <= i < rest_d.len() implies linkable(
            next,
            fs,
            #[trigger] rest_d[i],
            rest_p[i],
        ) by {
            assert(rest_d[i] == domains[i + 1]);
            assert(rest_p[i] == paths[i + 1]);
            assert(linkable(manager, fs, domains[i + 1], paths[i + 1]));
            assert(domains[i + 1] != domains[0]);
        }
        assert(rest_d.no_duplicates()) by {
            assert forall|i: int, j: int|
                0 <= i < rest_d.len() && 0 <= j < rest_d.len() && i != j implies rest_d[i]
                != rest_d[j] by {
                assert(rest_d[i] == domains[i + 1]);
                assert(rest_d[j] == domains[j + 1]);
            }
        }
        lemma_links_of_distinct_domains_all_succeed(next, fs, rest_d, rest_p);
        let tail = link_all(next, fs, rest_d, rest_p);
        let end = link_all(manager, fs, domains, paths);
        assert(end == tail);
        assert(next.sites.contains_key(domains[0]));
        assert(next.sites[domains[0]] == fresh_site(
            domains[0],
            paths[0],
            detect_spec(manager.drivers, fs, paths[0])->0,
        ));
        assert(tail.sites.contains_key(domains[0]));
        assert(tail.sites[domains[0]] == next.sites[domains[0]]);
        assert forall|i: int| 0 <= i < domains.len() implies tail.sites.contains_key(
            #[trigger] domains[i],
        ) && tail.sites[domains[i]] == fresh_site(
            domains[i],
            paths[i],
            detect_spec(manager.drivers, fs, paths[i])->0,
        ) by {
            if i > 0 {
                assert(rest_d[i - 1] == domains[i]);
                assert(rest_p[i - 1] == paths[i]);
                assert(tail.sites.contains_key(rest_d[i - 1]));
            }
        }
        assert forall|d: Seq<char>| #[trigger]
            tail.sites.contains_key(d) <==> manager.sites.contains_key(d) || domains.contains(
                d,
            ) by {
            assert(next.sites.contains_key(d) <==> manager.sites.contains_key(d) || d
                == domains[0]);
            if rest_d.contains(d) {
                let i = choose|i: int| 0 <= i < rest_d.len() && rest_d[i] == d;
                assert(domains[i + 1] == d);
            }
            if domains.contains(d) {
                let i = choose|i: int| 0 <= i < domains.len() && domains[i] == d;
                if i > 0 {
                    assert(rest_d[i - 1] == d);
                }
            }
            if d == domains[0] {
                assert(domains.contains(d));
            }
        }
        assert forall|d: Seq<char>| manager.sites.contains_key(d) implies #[trigger] tail.sites[d]
            == manager.sites[d] by {
            assert(next.sites.contains_key(d));
            assert(next.sites[d] == manager.sites[d]);
            assert(tail.sites[d] == next.sites[d]);
        }
    }
}

/// Two links of different domains give the same manager in either order.
pub proof fn lemma_links_of_distinct_domains_commute(
    manager: ManagerView,
    fs: Map<Seq<char>, EntryKind>,
    first_domain: Seq<char>,
    first_path: Seq<char>,
    second_domain: Seq<char>,
    second_path: Seq<char>,
)
    requires
        first_domain != second_domain,
    ensures
        manager.link(fs, first_domain, first_path).0.link(fs, second_domain, second_path).0
            == manager.link(fs, second_domain, second_path).0.link(
            fs,
            first_domain,
            first_path,
        ).0,
        manager.link(fs, first_domain, first_path).0.link(fs, second_domain, second_path).1
            == manager.link(fs, second_domain, second_path).1,
{
    let a = manager.link(fs, first_domain, first_path).0.link(fs, second_domain, second_path).0;
    let b = manager.link(fs, second_domain, second_path).0.link(fs, first_domain, first_path).0;
    assert(a.sites =~= b.sites);
}

/// A scan adds the domains that it lists and nothing else: none of them was
/// linked before, the sites that were there stay as they are, and the number
/// of sites grows by the number of domains listed.
pub proof fn lemma_scan_adds_what_it_lists(
    manager: ManagerView,
    fs: Map<Seq<char>, EntryKind>,
    parent: Seq<char>,
    domains: Seq<Seq<char>>,
)
    requires
        manager.scan_lists(fs, parent, domains),
        manager.sites.dom().finite(),
    ensures
        manager.scan(fs, parent).sites.dom() == manager.sites.dom() + domains.to_set(),
        manager.sites.dom().disjoint(domains.to_set()),
        manager.scan(fs, parent).sites.dom().finite(),
        manager.scan(fs, parent).sites.dom().len() == manager.sites.dom().len() + domains.len(),
        forall|d: Seq<char>|
            manager.sites.contains_key(d) ==> #[trigger] manager.scan(fs, parent).sites[d]
                == manager.sites[d],
        manager.scan(fs, parent).parked == manager.parked,
{
    let after = manager.scan(fs, parent);
    let listed = domains.to_set();
    assert forall|d: Seq<char>| listed.contains(d) implies !manager.sites.contains_key(d) by {
        assert(domains.contains(d));
        assert(manager.scan_finds(fs, parent, d));
    }
    assert(after.sites.dom() =~= manager.sites.dom() + listed) by {
        assert forall|d: Seq<char>|
            after.sites.dom().contains(d) <==> (manager.sites.dom() + listed).contains(d) by {
            assert(listed.contains(d) <==> domains.contains(d));
        }
    }
    domains.unique_seq_to_set();
    vstd::seq_lib::seq_to_set_is_finite(domains);
    lemma_set_disjoint_lens(manager.sites.dom(), listed);
}

/// A scan lists one domain for each directory that it links: as many domains
/// as there are directories directly inside the scanned one that a driver
/// serves and whose domain is free.
pub proof fn lemma_scan_lists_one_domain_per_project(
    manager: ManagerView,
    fs: Map<Seq<char>, EntryKind>,
    parent: Seq<char>,
    names: Seq<Seq<char>>,
    domains: Seq<Seq<char>>,
)
    requires
        names.no_duplicates(),
        forall|name: Seq<char>| names.contains(name) <==> manager.scan_links(fs, parent, name),
        manager.scan_lists(fs, parent, domains),
    ensures
        domains.len() == names.len(),
{
    let f = |name: Seq<char>| domain_of(name, manager.tld);
    let from = names.to_set();
    let to = domains.to_set();
    vstd::seq_lib::seq_to_set_is_finite(names);
    assert(injective_on(f, from)) by {
        assert forall|a: Seq<char>, b: Seq<char>|
            from.contains(a) && from.contains(b) && #[trigger] f(a) == #[trigger] f(b) implies a
            == b by {
            lemma_domain_of_injective(a, b, manager.tld);
        }
    }
    assert(from.map(f) =~= to) by {
        assert forall|d: Seq<char>| from.map(f).contains(d) <==> to.contains(d) by {
            if from.map(f).contains(d) {
                let name = choose|name: Seq<char>| from.contains(name) && d == f(name);
                assert(names.contains(name));
                assert(manager.scan_links(fs, parent, name));
                assert(manager.scan_finds(fs, parent, d));
                assert(domains.contains(d));
            }
            if to.contains(d) {
                assert(domains.contains(d));
                assert(manager.scan_finds(fs, parent, d));
                let name = choose|name: Seq<char>| #[trigger]
                    manager.scan_links(fs, parent, name) && d == domain_of(name, manager.tld);
                assert(names.contains(name));
                assert(from.contains(name) && d == f(name));
            }
        }
    }
    lemma_map_size(from, to, f);
    names.unique_seq_to_set();
    domains.unique_seq_to_set();
}

/// A directory inside the scanned one that no driver serves is passed over:
/// the scan links nothing for it.
pub proof fn lemma_scan_skips_what_no_driver_serves(
    manager: ManagerView,
    fs: Map<Seq<char>, EntryKind>,
    parent: Seq<char>,
    name: Seq<char>,
)
    requires
        detect_spec(manager.drivers, fs, join_spec(parent, name)) is None,
        !manager.sites.contains_key(domain_of(name, manager.tld)),
    ensures
        !manager.scan(fs, parent).sites.contains_key(domain_of(name, manager.tld)),
{
    let d = domain_of(name, manager.tld);
    if manager.scan_finds(fs, parent, d) {
        let other = choose|other: Seq<char>| #[trigger]
            manager.scan_links(fs, parent, other) && d == domain_of(other, manager.tld);
        lemma_domain_of_injective(name, other, manager.tld);
    }
}

} // verus!
