//! Sites, and the manager that keeps the parked directories and the linked
//! sites.

use vstd::prelude::*;
use vstd::string::StringExecFns;
use crate::driver::{AnyDriver, Driver, DriverView};
use crate::fs::{is_subdirectory, EntryKind, FileSystem};
use crate::path::{join, join_spec};
use crate::registry::{detect_spec, DriverRegistry};
use crate::strmap::StrMap;
use crate::text::views_of;

verus! {

/// Why an operation of the manager did nothing.
#[derive(Clone, Copy, Debug, PartialEq, Eq, Structural)]
pub enum SiteError {
    /// The path does not exist.
    NotFound,
    /// The directory is parked already.
    AlreadyParked,
    /// The domain is linked already.
    AlreadyLinked,
    /// The directory is not parked.
    NotParked,
    /// The domain is not linked.
    NotLinked,
    /// No driver serves the directory.
    NoDriverMatched,
}

impl SiteError {
    /// The error in words.
    pub fn message(&self) -> (s: &'static str)
        ensures
            s@ == (match *self {
                SiteError::NotFound => "Directory does not exist"@,
                SiteError::AlreadyParked => "Directory is already parked"@,
                SiteError::AlreadyLinked => "Domain is already linked"@,
                SiteError::NotParked => "Directory is not parked"@,
                SiteError::NotLinked => "Site is not linked"@,
                SiteError::NoDriverMatched => "No suitable driver found for site"@,
            }),
    {
        match self {
            SiteError::NotFound => "Directory does not exist",
            SiteError::AlreadyParked => "Directory is already parked",
            SiteError::AlreadyLinked => "Domain is already linked",
            SiteError::NotParked => "Directory is not parked",
            SiteError::NotLinked => "Site is not linked",
            SiteError::NoDriverMatched => "No suitable driver found for site",
        }
    }
}

/// A domain that is bound to a directory.
#[derive(Debug)]
pub struct Site {
    /// The domain, such as `example.test`.
    pub domain: String,
    /// The directory that holds the project.
    pub root_dir: String,
    /// Whether the site is served over TLS.
    pub secure: bool,
    /// The PHP version that the site is held to, if it is held to one.
    pub php_version: Option<String>,
    /// The driver that served the directory when the site was linked.
    pub driver: AnyDriver,
}

/// A site as a value of the model.
pub struct SiteView {
    pub domain: Seq<char>,
    pub root_dir: Seq<char>,
    pub secure: bool,
    pub php_version: Option<Seq<char>>,
    pub driver: DriverView,
}

/// The text of a string that may be absent.
pub open spec fn option_view(s: Option<String>) -> Option<Seq<char>> {
    match s {
        Some(s) => Some(s@),
        None => None,
    }
}

impl View for Site {
    type V = SiteView;

    open spec fn view(&self) -> SiteView {
        SiteView {
            domain: self.domain@,
            root_dir: self.root_dir@,
            secure: self.secure,
            php_version: option_view(self.php_version),
            driver: self.driver.model(),
        }
    }
}

impl Clone for Site {
    fn clone(&self) -> (s: Self)
        ensures
            s@ == self@,
    {
        let php_version = match &self.php_version {
            Some(v) => Some(v.clone()),
            None => None,
        };
        Site {
            domain: self.domain.clone(),
            root_dir: self.root_dir.clone(),
            secure: self.secure,
            php_version,
            driver: self.driver.clone(),
        }
    }
}

/// What the manager holds, as a value of the model.
#[verifier::ext_equal]
pub struct ManagerView {
    /// The drivers, the one that is asked first in front.
    pub drivers: Seq<DriverView>,
    /// The parked directories.
    pub parked: Set<Seq<char>>,
    /// The linked sites by their domains.
    pub sites: Map<Seq<char>, SiteView>,
    /// What is put behind the name of a directory to make its domain.
    pub tld: Seq<char>,
}

/// The domain under which a directory called `name` is linked when its
/// parent is scanned.
pub open spec fn domain_of(name: Seq<char>, tld: Seq<char>) -> Seq<char> {
    name + tld
}

/// Two names that give the same domain are the same name.
pub proof fn lemma_domain_of_injective(a: Seq<char>, b: Seq<char>, tld: Seq<char>)
    requires
        domain_of(a, tld) == domain_of(b, tld),
    ensures
        a == b,
{
    assert(a.len() + tld.len() == b.len() + tld.len()) by {
        assert((a + tld).len() == (b + tld).len());
    }
    assert(a =~= (a + tld).take(a.len() as int));
    assert(b =~= (b + tld).take(b.len() as int));
}

/// The site that a fresh link of `domain` to `path` makes.
pub open spec fn fresh_site(domain: Seq<char>, path: Seq<char>, driver: DriverView) -> SiteView {
    SiteView { domain, root_dir: path, secure: false, php_version: None, driver }
}

impl ManagerView {
    /// Every site is stored under its own domain.
    pub open spec fn wf(self) -> bool {
        forall|d: Seq<char>| self.sites.contains_key(d) ==> (#[trigger] self.sites[d]).domain == d
    }

    /// The manager with `sites` in place of its sites.
    pub open spec fn with_sites(self, sites: Map<Seq<char>, SiteView>) -> ManagerView {
        ManagerView { sites, ..self }
    }

    /// The manager with `parked` in place of its parked directories.
    pub open spec fn with_parked(self, parked: Set<Seq<char>>) -> ManagerView {
        ManagerView { parked, ..self }
    }

    /// Parking `path`: it must exist and must not be parked yet.
    pub open spec fn park(self, fs: Map<Seq<char>, EntryKind>, path: Seq<char>) -> (
        ManagerView,
        Result<(), SiteError>,
    ) {
        if !fs.contains_key(path) {
            (self, Err(SiteError::NotFound))
        } else if self.parked.contains(path) {
            (self, Err(SiteError::AlreadyParked))
        } else {
            (self.with_parked(self.parked.insert(path)), Ok(()))
        }
    }

    /// Unparking `path`: it must be parked.
    pub open spec fn unpark(self, path: Seq<char>) -> (ManagerView, Result<(), SiteError>) {
        if !self.parked.contains(path) {
            (self, Err(SiteError::NotParked))
        } else {
            (self.with_parked(self.parked.remove(path)), Ok(()))
        }
    }

    /// Linking `domain` to `path`: the path must exist, the domain must be
    /// free, and a driver must serve the directory. That driver stays with
    /// the site.
    pub open spec fn link(
        self,
        fs: Map<Seq<char>, EntryKind>,
        domain: Seq<char>,
        path: Seq<char>,
    ) -> (ManagerView, Result<(), SiteError>) {
        if !fs.contains_key(path) {
            (self, Err(SiteError::NotFound))
        } else if self.sites.contains_key(domain) {
            (self, Err(SiteError::AlreadyLinked))
        } else {
            match detect_spec(self.drivers, fs, path) {
                None => (self, Err(SiteError::NoDriverMatched)),
                Some(driver) => (
                    self.with_sites(self.sites.insert(domain, fresh_site(domain, path, driver))),
                    Ok(()),
                ),
            }
        }
    }

    /// Unlinking `domain`: it must be linked.
    pub open spec fn unlink(self, domain: Seq<char>) -> (ManagerView, Result<(), SiteError>) {
        if !self.sites.contains_key(domain) {
            (self, Err(SiteError::NotLinked))
        } else {
            (self.with_sites(self.sites.remove(domain)), Ok(()))
        }
    }

    /// Setting the TLS flag of `domain`: it must be linked.
    pub open spec fn set_secure(self, domain: Seq<char>, secure: bool) -> (
        ManagerView,
        Result<(), SiteError>,
    ) {
        if !self.sites.contains_key(domain) {
            (self, Err(SiteError::NotLinked))
        } else {
            let site = SiteView { secure, ..self.sites[domain] };
            (self.with_sites(self.sites.insert(domain, site)), Ok(()))
        }
    }

    /// Whether a scan of `parent` links the directory `name` in it: it is a
    /// directory directly inside `parent`, its domain is free, and a driver
    /// serves it.
    pub open spec fn scan_links(
        self,
        fs: Map<Seq<char>, EntryKind>,
        parent: Seq<char>,
        name: Seq<char>,
    ) -> bool {
        &&& is_subdirectory(fs, parent, name)
        &&& !self.sites.contains_key(domain_of(name, self.tld))
        &&& detect_spec(self.drivers, fs, join_spec(parent, name)) is Some
    }

    /// Whether a scan of `parent` links `domain`, looking only at the first
    /// `k` of `names`.
    pub open spec fn scan_finds_among(
        self,
        fs: Map<Seq<char>, EntryKind>,
        parent: Seq<char>,
        names: Seq<Seq<char>>,
        k: int,
        domain: Seq<char>,
    ) -> bool {
        exists|j: int|
            0 <= j < k && j < names.len() && #[trigger] self.scan_links(fs, parent, names[j])
                && domain == domain_of(names[j], self.tld)
    }

    /// Whether a scan of `parent` links `domain`.
    pub open spec fn scan_finds(
        self,
        fs: Map<Seq<char>, EntryKind>,
        parent: Seq<char>,
        domain: Seq<char>,
    ) -> bool {
        exists|name: Seq<char>| #[trigger]
            self.scan_links(fs, parent, name) && domain == domain_of(name, self.tld)
    }

    /// The site that a scan of `parent` makes for the directory `name`.
    pub open spec fn scanned_site(
        self,
        fs: Map<Seq<char>, EntryKind>,
        parent: Seq<char>,
        name: Seq<char>,
    ) -> SiteView {
        fresh_site(
            domain_of(name, self.tld),
            join_spec(parent, name),
            detect_spec(self.drivers, fs, join_spec(parent, name))->0,
        )
    }

    /// Whether `domains` are the domains that a scan of `parent` links, each
    /// once.
    pub open spec fn scan_lists(
        self,
        fs: Map<Seq<char>, EntryKind>,
        parent: Seq<char>,
        domains: Seq<Seq<char>>,
    ) -> bool {
        &&& domains.no_duplicates()
        &&& forall|d: Seq<char>| domains.contains(d) <==> self.scan_finds(fs, parent, d)
    }

    /// Scanning `parent`: every directory directly inside it that some driver
    /// serves is linked under its name followed by the manager's suffix,
    /// unless that domain is linked already; all else stays.
    pub open spec fn scan(self, fs: Map<Seq<char>, EntryKind>, parent: Seq<char>) -> ManagerView {
        self.with_sites(
            Map::new(
                |d: Seq<char>| self.sites.contains_key(d) || self.scan_finds(fs, parent, d),
                |d: Seq<char>|
                    if self.sites.contains_key(d) {
                        self.sites[d]
                    } else {
                        self.scanned_site(fs, parent, d.take(d.len() - self.tld.len()))
                    },
            ),
        )
    }

    /// Setting or clearing the PHP version of `domain`: it must be linked.
    pub open spec fn set_php_version(self, domain: Seq<char>, version: Option<Seq<char>>) -> (
        ManagerView,
        Result<(), SiteError>,
    ) {
        if !self.sites.contains_key(domain) {
            (self, Err(SiteError::NotLinked))
        } else {
            let site = SiteView { php_version: version, ..self.sites[domain] };
            (self.with_sites(self.sites.insert(domain, site)), Ok(()))
        }
    }
}

/// Keeps the parked directories and the linked sites.
pub struct SiteManager {
    driver_registry: DriverRegistry,
    parked_dirs: StrMap<()>,
    sites: StrMap<Site>,
    tld: String,
}

/// The models of the sites of a map.
pub open spec fn site_views(sites: Map<Seq<char>, Site>) -> Map<Seq<char>, SiteView> {
    sites.map_values(|s: Site| s@)
}

impl View for SiteManager {
    type V = ManagerView;

    closed spec fn view(&self) -> ManagerView {
        ManagerView {
            drivers: self.driver_registry@,
            parked: self.parked_dirs@.dom(),
            sites: site_views(self.sites@),
            tld: self.tld@,
        }
    }
}

impl SiteManager {
    #[verifier::type_invariant]
    spec fn inv(self) -> bool {
        forall|d: Seq<char>| self.sites@.contains_key(d) ==> (#[trigger] self.sites@[d]).domain@ == d
    }

    /// A manager without parked directories or sites, whose domains end in
    /// `.test`.
    pub fn new(driver_registry: DriverRegistry) -> (m: Self)
        ensures
            m@ == (ManagerView {
                drivers: driver_registry@,
                parked: Set::<Seq<char>>::empty(),
                sites: Map::<Seq<char>, SiteView>::empty(),
                tld: ".test"@,
            }),
            m@.wf(),
    {
        let m = SiteManager {
            driver_registry,
            parked_dirs: StrMap::new(),
            sites: StrMap::new(),
            tld: ".test".to_owned(),
        };
        assert(m@.sites =~= Map::<Seq<char>, SiteView>::empty());
        assert(m@.parked =~= Set::<Seq<char>>::empty());
        m
    }

    /// The manager with `tld` as what is put behind the name of a directory to
    /// make its domain.
    pub fn with_tld(self, tld: &str) -> (m: Self)
        ensures
            m@ == (ManagerView { tld: tld@, ..self@ }),
    {
        proof {
            use_type_invariant(&self);
        }
        SiteManager {
            driver_registry: self.driver_registry,
            parked_dirs: self.parked_dirs,
            sites: self.sites,
            tld: tld.to_owned(),
        }
    }

    /// The drivers that the manager asks.
    pub fn registry(&self) -> (r: &DriverRegistry)
        ensures
            r@ == self@.drivers,
    {
        &self.driver_registry
    }

    /// What is put behind the name of a directory to make its domain.
    pub fn tld(&self) -> (t: &str)
        ensures
            t@ == self@.tld,
    {
        self.tld.as_str()
    }

    /// Parks a directory, so that the projects in it can be found.
    pub fn park_directory(&mut self, fs: &FileSystem, path: &str) -> (r: Result<(), SiteError>)
        ensures
            (final(self)@, r) == old(self)@.park(fs@, path@),
    {
        if !fs.contains(path) {
            return Err(SiteError::NotFound);
        }
        if self.parked_dirs.contains_key(path) {
            return Err(SiteError::AlreadyParked);
        }
        proof {
            use_type_invariant(&*self);
        }
        let mut parked: StrMap<()> = StrMap::new();
        core::mem::swap(&mut self.parked_dirs, &mut parked);
        parked.insert(path.to_owned(), ());
        self.parked_dirs = parked;
        assert(self@.parked =~= old(self)@.parked.insert(path@));
        Ok(())
    }

    /// Takes a directory out of the parked ones.
    pub fn unpark_directory(&mut self, path: &str) -> (r: Result<(), SiteError>)
        ensures
            (final(self)@, r) == old(self)@.unpark(path@),
    {
        if !self.parked_dirs.contains_key(path) {
            return Err(SiteError::NotParked);
        }
        proof {
            use_type_invariant(&*self);
        }
        let mut parked: StrMap<()> = StrMap::new();
        core::mem::swap(&mut self.parked_dirs, &mut parked);
        parked.remove(path);
        self.parked_dirs = parked;
        assert(self@.parked =~= old(self)@.parked.remove(path@));
        Ok(())
    }

    /// Whether a directory is parked.
    pub fn is_parked(&self, path: &str) -> (b: bool)
        ensures
            b == self@.parked.contains(path@),
    {
        self.parked_dirs.contains_key(path)
    }

    /// Links a domain to a directory, with the driver that serves the
    /// directory now.
    pub fn link_site(&mut self, fs: &FileSystem, domain: &str, path: &str) -> (r: Result<
        (),
        SiteError,
    >)
        ensures
            (final(self)@, r) == old(self)@.link(fs@, domain@, path@),
            final(self)@.wf(),
    {
        proof {
            use_type_invariant(&*self);
        }
        if !fs.contains(path) {
            return Err(SiteError::NotFound);
        }
        if self.sites.contains_key(domain) {
            return Err(SiteError::AlreadyLinked);
        }
        let driver = match self.driver_registry.detect_driver(fs, path) {
            Some(d) => d.clone(),
            None => {
                return Err(SiteError::NoDriverMatched);
            },
        };
        let site = Site {
            domain: domain.to_owned(),
            root_dir: path.to_owned(),
            secure: false,
            php_version: None,
            driver,
        };
        self.store(domain, site);
        Ok(())
    }

    /// Puts `site` under `domain`, in place of what was there.
    fn store(&mut self, domain: &str, site: Site)
        requires
            site.domain@ == domain@,
        ensures
            final(self)@ == old(self)@.with_sites(old(self)@.sites.insert(domain@, site@)),
            final(self)@.wf(),
    {
        proof {
            use_type_invariant(&*self);
        }
        let mut sites: StrMap<Site> = StrMap::new();
        core::mem::swap(&mut self.sites, &mut sites);
        sites.insert(domain.to_owned(), site);
        self.sites = sites;
        assert(self@.sites =~= old(self)@.sites.insert(domain@, site@));
    }

    /// Unlinks a domain.
    pub fn unlink_site(&mut self, domain: &str) -> (r: Result<(), SiteError>)
        ensures
            (final(self)@, r) == old(self)@.unlink(domain@),
    {
        if !self.sites.contains_key(domain) {
            return Err(SiteError::NotLinked);
        }
        proof {
            use_type_invariant(&*self);
        }
        let mut sites: StrMap<Site> = StrMap::new();
        core::mem::swap(&mut self.sites, &mut sites);
        sites.remove(domain);
        self.sites = sites;
        assert(self@.sites =~= old(self)@.sites.remove(domain@));
        Ok(())
    }

    /// Whether a domain is linked.
    pub fn is_linked(&self, domain: &str) -> (b: bool)
        ensures
            b == self@.sites.contains_key(domain@),
    {
        self.sites.contains_key(domain)
    }

    /// Has a site served over TLS.
    pub fn secure_site(&mut self, domain: &str) -> (r: Result<(), SiteError>)
        ensures
            (final(self)@, r) == old(self)@.set_secure(domain@, true),
    {
        self.set_secure(domain, true)
    }

    /// Has a site served without TLS.
    pub fn unsecure_site(&mut self, domain: &str) -> (r: Result<(), SiteError>)
        ensures
            (final(self)@, r) == old(self)@.set_secure(domain@, false),
    {
        self.set_secure(domain, false)
    }

    fn set_secure(&mut self, domain: &str, secure: bool) -> (r: Result<(), SiteError>)
        ensures
            (final(self)@, r) == old(self)@.set_secure(domain@, secure),
    {
        proof {
            use_type_invariant(&*self);
        }
        let mut site = match self.sites.get(domain) {
            Some(s) => s.clone(),
            None => {
                return Err(SiteError::NotLinked);
            },
        };
        site.secure = secure;
        self.store(domain, site);
        Ok(())
    }

    /// Whether a domain is linked and served over TLS.
    pub fn is_secure(&self, domain: &str) -> (b: bool)
        ensures
            b == (self@.sites.contains_key(domain@) && self@.sites[domain@].secure),
    {
        match self.sites.get(domain) {
            Some(site) => site.secure,
            None => false,
        }
    }

    /// Links the projects in a parked directory, and returns the domains
    /// that it linked, each once. A directory that no driver serves is passed
    /// over, and so is one whose domain is linked already.
    pub fn scan_parked_directory(&mut self, fs: &FileSystem, path: &str) -> (r: Result<
        Vec<String>,
        SiteError,
    >)
        ensures
            r is Ok <==> old(self)@.parked.contains(path@),
            r matches Err(e) ==> e == SiteError::NotParked && final(self)@ == old(self)@,
            r matches Ok(domains) ==> final(self)@ == old(self)@.scan(fs@, path@) && old(
                self,
            )@.scan_lists(fs@, path@, views_of(domains@)),
    {
        if !self.is_parked(path) {
            return Err(SiteError::NotParked);
        }
        let ghost start = self@;
        let tld = self.tld.clone();
        let names = fs.subdirectories(path);
        let ghost nv = Seq::new(names@.len(), |i: int| names@[i]@);
        let mut domains: Vec<String> = Vec::new();
        let mut k: usize = 0;
        while k < names.len()
            invariant
                k <= names.len(),
                nv.len() == names.len(),
                forall|i: int| 0 <= i < names.len() ==> nv[i] == names[i]@,
                forall|i: int, j: int| 0 <= i < nv.len() && 0 <= j < nv.len() && i != j ==> nv[i] != nv[j],
                forall|i: int| 0 <= i < nv.len() ==> is_subdirectory(fs@, path@, #[trigger] nv[i]),
                tld@ == start.tld,
                self@.drivers == start.drivers,
                self@.parked == start.parked,
                self@.tld == start.tld,
                forall|d: Seq<char>|
                    self@.sites.contains_key(d) <==> start.sites.contains_key(d)
                        || start.scan_finds_among(fs@, path@, nv, k as int, d),
                forall|d: Seq<char>|
                    start.sites.contains_key(d) ==> #[trigger] self@.sites[d] == start.sites[d],
                forall|j: int|
                    0 <= j < k && #[trigger] start.scan_links(fs@, path@, nv[j]) ==> self@.sites[domain_of(
                        nv[j],
                        start.tld,
                    )] == start.scanned_site(fs@, path@, nv[j]),
                forall|i: int|
                    0 <= i < domains.len() ==> start.scan_finds_among(
                        fs@,
                        path@,
                        nv,
                        k as int,
                        #[trigger] domains[i]@,
                    ),
                forall|j: int|
                    0 <= j < k && #[trigger] start.scan_links(fs@, path@, nv[j]) ==> exists|i: int|
                        0 <= i < domains.len() && #[trigger] domains[i]@ == domain_of(
                            nv[j],
                            start.tld,
                        ),
                forall|i: int, j: int|
                    0 <= i < domains.len() && 0 <= j < domains.len() && i != j ==> domains[i]@
                        != domains[j]@,
            decreases names.len() - k,
        {
            let ghost before = self@;
            let ghost found_before = domains@;
            let ghost name = nv[k as int];
            let site_path = join(path, names[k].as_str());
            let domain = String::from_str(names[k].as_str()).concat(tld.as_str());
            assert(domain@ == domain_of(name, start.tld));
            assert(is_subdirectory(fs@, path@, name));
            proof {
                // No earlier directory has given this domain.
                assert(!start.scan_finds_among(fs@, path@, nv, k as int, domain@)) by {
                    if start.scan_finds_among(fs@, path@, nv, k as int, domain@) {
                        let j = choose|j: int|
                            0 <= j < k && j < nv.len() && #[trigger] start.scan_links(
                                fs@,
                                path@,
                                nv[j],
                            ) && domain@ == domain_of(nv[j], start.tld);
                        lemma_domain_of_injective(nv[j], name, start.tld);
                    }
                }
            }
            let mut linked = false;
            if self.driver_registry.detect_driver(fs, site_path.as_str()).is_some() {
                if !self.is_linked(domain.as_str()) {
                    let outcome = self.link_site(fs, domain.as_str(), site_path.as_str());
                    assert(outcome is Ok);
                    domains.push(domain);
                    linked = true;
                }
            }
            proof {
                assert(linked == start.scan_links(fs@, path@, name));
                let k1 = k as int + 1;
                assert forall|d: Seq<char>|
                    start.scan_finds_among(fs@, path@, nv, k1, d) <==> (start.scan_finds_among(
                        fs@,
                        path@,
                        nv,
                        k as int,
                        d,
                    ) || (linked && d == domain_of(name, start.tld))) by {
                    if start.scan_finds_among(fs@, path@, nv, k1, d) {
                        let j = choose|j: int|
                            0 <= j < k1 && j < nv.len() && #[trigger] start.scan_links(
                                fs@,
                                path@,
                                nv[j],
                            ) && d == domain_of(nv[j], start.tld);
                        if j < k {
                            assert(start.scan_finds_among(fs@, path@, nv, k as int, d));
                        }
                    }
                    if start.scan_finds_among(fs@, path@, nv, k as int, d) {
                        let j = choose|j: int|
                            0 <= j < k && j < nv.len() && #[trigger] start.scan_links(
                                fs@,
                                path@,
                                nv[j],
                            ) && d == domain_of(nv[j], start.tld);
                        assert(0 <= j < k1 && start.scan_links(fs@, path@, nv[j]));
                    }
                    if linked && d == domain_of(name, start.tld) {
                        assert(start.scan_links(fs@, path@, nv[k as int]));
                    }
                }
                assert forall|j: int|
                    0 <= j < k1 && #[trigger] start.scan_links(fs@, path@, nv[j]) implies self@.sites[domain_of(
                    nv[j],
                    start.tld,
                )] == start.scanned_site(fs@, path@, nv[j]) by {
                    if j < k {
                        if linked {
                            assert(domain_of(nv[j], start.tld) != domain@) by {
                                if domain_of(nv[j], start.tld) == domain@ {
                                    lemma_domain_of_injective(nv[j], name, start.tld);
                                }
                            }
                        }
                    }
                }
                assert forall|i: int| 0 <= i < domains.len() implies start.scan_finds_among(
                    fs@,
                    path@,
                    nv,
                    k1,
                    #[trigger] domains[i]@,
                ) by {
                    if i < found_before.len() {
                        assert(domains[i] == found_before[i]);
                        assert(start.scan_finds_among(fs@, path@, nv, k as int, found_before[i]@));
                    }
                }
                assert forall|j: int|
                    0 <= j < k1 && #[trigger] start.scan_links(fs@, path@, nv[j]) implies exists|
                    i: int,
                |
                    0 <= i < domains.len() && #[trigger] domains[i]@ == domain_of(
                        nv[j],
                        start.tld,
                    ) by {
                    if j < k {
                        let i = choose|i: int|
                            0 <= i < found_before.len() && #[trigger] found_before[i]@
                                == domain_of(nv[j], start.tld);
                        assert(domains[i] == found_before[i]);
                    } else {
                        assert(domains[found_before.len() as int]@ == domain_of(nv[j], start.tld));
                    }
                }
                assert forall|i: int, j: int|
                    0 <= i < domains.len() && 0 <= j < domains.len() && i != j implies domains[i]@
                    != domains[j]@ by {
                    if i < found_before.len() {
                        assert(domains[i] == found_before[i]);
                        assert(start.scan_finds_among(fs@, path@, nv, k as int, found_before[i]@));
                    }
                    if j < found_before.len() {
                        assert(domains[j] == found_before[j]);
                        assert(start.scan_finds_among(fs@, path@, nv, k as int, found_before[j]@));
                    }
                }
            }
            k += 1;
        }
        proof {
            let n = nv.len() as int;
            assert forall|d: Seq<char>|
                start.scan_finds_among(fs@, path@, nv, n, d) <==> start.scan_finds(
                    fs@,
                    path@,
                    d,
                ) by {
                if start.scan_finds_among(fs@, path@, nv, n, d) {
                    let j = choose|j: int|
                        0 <= j < n && j < nv.len() && #[trigger] start.scan_links(fs@, path@, nv[j])
                            && d == domain_of(nv[j], start.tld);
                    assert(start.scan_links(fs@, path@, nv[j]));
                }
                if start.scan_finds(fs@, path@, d) {
                    let name = choose|name: Seq<char>| #[trigger]
                        start.scan_links(fs@, path@, name) && d == domain_of(name, start.tld);
                    let i = choose|i: int| 0 <= i < names.len() && #[trigger] names[i]@ == name;
                    assert(nv[i] == name);
                    assert(start.scan_links(fs@, path@, nv[i]));
                }
            }
            let want = start.scan(fs@, path@);
            assert forall|d: Seq<char>| want.sites.contains_key(d) implies #[trigger] self@.sites[d]
                == want.sites[d] by {
                if !start.sites.contains_key(d) {
                    let j = choose|j: int|
                        0 <= j < n && j < nv.len() && #[trigger] start.scan_links(fs@, path@, nv[j])
                            && d == domain_of(nv[j], start.tld);
                    assert(d.take(d.len() - start.tld.len()) =~= nv[j]);
                }
            }
            assert(self@.sites =~= want.sites);
            assert(self@ == want);
            let dv = views_of(domains@);
            assert(dv.len() == domains.len());
            assert forall|i: int| 0 <= i < dv.len() implies #[trigger] dv[i] == domains[i]@ by {}
            assert(dv.no_duplicates());
            assert forall|d: Seq<char>| dv.contains(d) <==> start.scan_finds(fs@, path@, d) by {
                if dv.contains(d) {
                    let i = choose|i: int| 0 <= i < dv.len() && dv[i] == d;
                    assert(start.scan_finds_among(fs@, path@, nv, n, domains[i]@));
                }
                if start.scan_finds(fs@, path@, d) {
                    assert(start.scan_finds_among(fs@, path@, nv, n, d));
                    let j = choose|j: int|
                        0 <= j < n && j < nv.len() && #[trigger] start.scan_links(fs@, path@, nv[j])
                            && d == domain_of(nv[j], start.tld);
                    let i = choose|i: int|
                        0 <= i < domains.len() && #[trigger] domains[i]@ == domain_of(
                            nv[j],
                            start.tld,
                        );
                    assert(dv[i] == d);
                }
            }
            assert(start.scan_lists(fs@, path@, dv));
        }
        Ok(domains)
    }

    /// The site that a domain is linked to.
    pub fn get_site(&self, domain: &str) -> (r: Option<&Site>)
        ensures
            match r {
                Some(site) => self@.sites.contains_key(domain@) && site@ == self@.sites[domain@]
                    && site.domain@ == domain@,
                None => !self@.sites.contains_key(domain@),
            },
            self@.wf(),
    {
        proof {
            use_type_invariant(self);
        }
        self.sites.get(domain)
    }

    /// Holds a site to a PHP version.
    pub fn isolate_php(&mut self, domain: &str, version: &str) -> (r: Result<(), SiteError>)
        ensures
            (final(self)@, r) == old(self)@.set_php_version(domain@, Some(version@)),
    {
        self.set_php_version(domain, Some(version.to_owned()))
    }

    /// Lets a site run on whatever PHP version there is.
    pub fn unisolate_php(&mut self, domain: &str) -> (r: Result<(), SiteError>)
        ensures
            (final(self)@, r) == old(self)@.set_php_version(domain@, None),
    {
        self.set_php_version(domain, None)
    }

    fn set_php_version(&mut self, domain: &str, version: Option<String>) -> (r: Result<
        (),
        SiteError,
    >)
        ensures
            (final(self)@, r) == old(self)@.set_php_version(domain@, option_view(version)),
    {
        proof {
            use_type_invariant(&*self);
        }
        let mut site = match self.sites.get(domain) {
            Some(s) => s.clone(),
            None => {
                return Err(SiteError::NotLinked);
            },
        };
        site.php_version = version;
        self.store(domain, site);
        Ok(())
    }
}

} // verus!
