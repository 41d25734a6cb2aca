//! The settings of the server.

use vstd::prelude::*;
use crate::site::option_view;
use crate::strmap::StrMap;
use crate::text::{str_eq, views_of};

verus! {

/// `num_cpus::get`, the number of CPUs that this process may use. It changes
/// from machine to machine; the crate's documentation promises that it is
/// never below one, and that is all that is claimed here.
pub assume_specification[ num_cpus::get ]() -> (n: usize)
    ensures
        n >= 1,
;

/// The settings of one site.
pub struct SiteConfig {
    /// The directory that holds the project.
    pub root_dir: String,
    /// The domain of the site.
    pub domain: String,
    /// Whether the site is served over TLS.
    pub secure: bool,
    /// The PHP version that the site is held to, if it is held to one.
    pub php_version: Option<String>,
    /// The environment variables of the site.
    pub env_vars: StrMap<String>,
    /// The name of the driver that the site asks for, if it asks for one.
    pub driver: Option<String>,
}

/// The settings of one site, as a value of the model.
#[verifier::ext_equal]
pub struct SiteConfigView {
    pub root_dir: Seq<char>,
    pub domain: Seq<char>,
    pub secure: bool,
    pub php_version: Option<Seq<char>>,
    pub env_vars: Map<Seq<char>, Seq<char>>,
    pub driver: Option<Seq<char>>,
}

impl View for SiteConfig {
    type V = SiteConfigView;

    open spec fn view(&self) -> SiteConfigView {
        SiteConfigView {
            root_dir: self.root_dir@,
            domain: self.domain@,
            secure: self.secure,
            php_version: option_view(self.php_version),
            env_vars: self.env_vars@.map_values(|v: String| v@),
            driver: option_view(self.driver),
        }
    }
}

/// Whether `copy` holds nothing but entries of `source`, with the same
/// texts.
pub open spec fn copied_from(
    copy: Map<Seq<char>, String>,
    source: Map<Seq<char>, String>,
) -> bool {
    forall|k: Seq<char>| #[trigger]
        copy.contains_key(k) ==> source.contains_key(k) && copy[k]@ == source[k]@
}

/// A copy of a string that may be absent.
fn clone_option(s: &Option<String>) -> (r: Option<String>)
    ensures
        option_view(r) == option_view(*s),
{
    match s {
        Some(v) => Some(v.clone()),
        None => None,
    }
}

impl Clone for SiteConfig {
    fn clone(&self) -> (c: Self)
        ensures
            c@ == self@,
    {
        let mut env_vars: StrMap<String> = StrMap::new();
        let n = self.env_vars.len();
        let ghost keys = self.env_vars.keys();
        proof {
            self.env_vars.lemma_keys_are_domain();
        }
        let mut i: usize = 0;
        while i < n
            invariant
                i <= n,
                n == keys.len(),
                keys == self.env_vars.keys(),
                forall|k: Seq<char>| self.env_vars@.contains_key(k) <==> keys.contains(k),
                forall|k: Seq<char>|
                    env_vars@.contains_key(k) <==> exists|j: int| 0 <= j < i && keys[j] == k,
                copied_from(env_vars@, self.env_vars@),
            decreases n - i,
        {
            let key = self.env_vars.key_at(i);
            let value = self.env_vars.value_at(i);
            let ghost before = env_vars@;
            env_vars.insert(key.to_owned(), value.clone());
            proof {
                assert forall|k: Seq<char>|
                    env_vars@.contains_key(k) <==> exists|j: int|
                        0 <= j < i + 1 && keys[j] == k by {
                    if before.contains_key(k) {
                        let j = choose|j: int| 0 <= j < i && keys[j] == k;
                        assert(0 <= j < i + 1 && keys[j] == k);
                    }
                    if k == keys[i as int] {
                        assert(0 <= i < i + 1 && keys[i as int] == k);
                    }
                }
                assert forall|k: Seq<char>| #[trigger]
                    env_vars@.contains_key(k) implies self.env_vars@.contains_key(k)
                    && env_vars@[k]@ == self.env_vars@[k]@ by {
                    if k != keys[i as int] {
                        assert(before.contains_key(k));
                    }
                }
            }
            i += 1;
        }
        let c = SiteConfig {
            root_dir: self.root_dir.clone(),
            domain: self.domain.clone(),
            secure: self.secure,
            php_version: clone_option(&self.php_version),
            env_vars,
            driver: clone_option(&self.driver),
        };
        proof {
            assert forall|k: Seq<char>|
                c.env_vars@.contains_key(k) <==> self.env_vars@.contains_key(k) by {
                if self.env_vars@.contains_key(k) {
                    assert(keys.contains(k));
                    let j = choose|j: int| 0 <= j < keys.len() && keys[j] == k;
                    assert(0 <= j < n && keys[j] == k);
                }
                if c.env_vars@.contains_key(k) {
                    assert(self.env_vars@.contains_key(k));
                }
            }
            assert(c@.env_vars =~= self@.env_vars);
        }
        c
    }
}

/// The settings of the server.
pub struct ServerConfig {
    /// The version of the format of the settings.
    pub version: u32,
    /// The number of worker threads.
    pub threads: usize,
    /// The address on which HTTP is served.
    pub http_listen_addr: String,
    /// The address on which HTTPS is served.
    pub https_listen_addr: String,
    /// The file that holds the TLS certificate.
    pub tls_cert_path: Option<String>,
    /// The file that holds the TLS key.
    pub tls_key_path: Option<String>,
    /// The file that holds the process id.
    pub pid_file: Option<String>,
    /// Whether the server runs as a daemon.
    pub daemon: bool,
    /// The file that errors are logged to.
    pub error_log: Option<String>,
    /// The user that the server runs as.
    pub user: Option<String>,
    /// The group that the server runs as.
    pub group: Option<String>,
    /// The parked directories.
    pub parked_paths: Vec<String>,
    /// The settings of the linked sites by their domains.
    pub sites: StrMap<SiteConfig>,
    /// The site that answers where no other does.
    pub default_site: Option<String>,
    /// What is put behind the name of a directory to make its domain.
    pub tld: String,
    /// Whether other machines may reach the server.
    pub network_access: bool,
    /// The port on which sites are shared.
    pub share_port: u16,
}

/// The settings of the server, as a value of the model.
#[verifier::ext_equal]
pub struct ServerConfigView {
    pub version: u32,
    pub threads: usize,
    pub http_listen_addr: Seq<char>,
    pub https_listen_addr: Seq<char>,
    pub tls_cert_path: Option<Seq<char>>,
    pub tls_key_path: Option<Seq<char>>,
    pub pid_file: Option<Seq<char>>,
    pub daemon: bool,
    pub error_log: Option<Seq<char>>,
    pub user: Option<Seq<char>>,
    pub group: Option<Seq<char>>,
    pub parked_paths: Seq<Seq<char>>,
    pub sites: Map<Seq<char>, SiteConfigView>,
    pub default_site: Option<Seq<char>>,
    pub tld: Seq<char>,
    pub network_access: bool,
    pub share_port: u16,
}

impl View for ServerConfig {
    type V = ServerConfigView;

    open spec fn view(&self) -> ServerConfigView {
        ServerConfigView {
            version: self.version,
            threads: self.threads,
            http_listen_addr: self.http_listen_addr@,
            https_listen_addr: self.https_listen_addr@,
            tls_cert_path: option_view(self.tls_cert_path),
            tls_key_path: option_view(self.tls_key_path),
            pid_file: option_view(self.pid_file),
            daemon: self.daemon,
            error_log: option_view(self.error_log),
            user: option_view(self.user),
            group: option_view(self.group),
            parked_paths: views_of(self.parked_paths@),
            sites: self.sites@.map_values(|c: SiteConfig| c@),
            default_site: option_view(self.default_site),
            tld: self.tld@,
            network_access: self.network_access,
            share_port: self.share_port,
        }
    }
}

/// The settings that a server starts from, with `threads` worker threads.
pub open spec fn default_view(threads: usize) -> ServerConfigView {
    ServerConfigView {
        version: 1,
        threads,
        http_listen_addr: "127.0.0.1:80"@,
        https_listen_addr: "127.0.0.1:443"@,
        tls_cert_path: None,
        tls_key_path: None,
        pid_file: None,
        daemon: false,
        error_log: None,
        user: None,
        group: None,
        parked_paths: Seq::empty(),
        sites: Map::empty(),
        default_site: None,
        tld: ".test"@,
        network_access: false,
        share_port: 8080,
    }
}

impl ServerConfig {
    /// The settings that a server starts from, with `threads` worker
    /// threads.
    pub fn with_threads(threads: usize) -> (c: Self)
        ensures
            c@ == default_view(threads),
    {
        let c = ServerConfig {
            version: 1,
            threads,
            http_listen_addr: "127.0.0.1:80".to_owned(),
            https_listen_addr: "127.0.0.1:443".to_owned(),
            tls_cert_path: None,
            tls_key_path: None,
            pid_file: None,
            daemon: false,
            error_log: None,
            user: None,
            group: None,
            parked_paths: Vec::new(),
            sites: StrMap::new(),
            default_site: None,
            tld: ".test".to_owned(),
            network_access: false,
            share_port: 8080,
        };
        assert(c@.parked_paths =~= Seq::<Seq<char>>::empty());
        assert(c@.sites =~= Map::<Seq<char>, SiteConfigView>::empty());
        c
    }

    /// Adds a parked directory behind the ones that are there.
    pub fn add_parked_path(&mut self, path: &str)
        ensures
            final(self)@ == (ServerConfigView {
                parked_paths: old(self)@.parked_paths.push(path@),
                ..old(self)@
            }),
    {
        self.parked_paths.push(path.to_owned());
        assert(self@.parked_paths =~= old(self)@.parked_paths.push(path@));
    }

    /// Takes a parked directory out, wherever it stands and however often.
    pub fn remove_parked_path(&mut self, path: &str)
        ensures
            final(self)@ == (ServerConfigView {
                parked_paths: old(self)@.parked_paths.filter(|p: Seq<char>| p != path@),
                ..old(self)@
            }),
    {
        let ghost before = views_of(self.parked_paths@);
        let ghost keep = |p: Seq<char>| p != path@;
        let mut kept: Vec<String> = Vec::new();
        let mut i: usize = 0;
        proof {
            reveal(Seq::filter);
            assert(before.take(0).filter(keep) =~= Seq::<Seq<char>>::empty());
        }
        while i < self.parked_paths.len()
            invariant
                i <= self.parked_paths.len(),
                before == views_of(self.parked_paths@),
                keep == |p: Seq<char>| p != path@,
                views_of(kept@) == before.take(i as int).filter(keep),
            decreases self.parked_paths.len() - i,
        {
            let ghost done = views_of(kept@);
            proof {
                reveal(Seq::filter);
                let next = before.take(i + 1);
                assert(next.drop_last() =~= before.take(i as int));
                assert(next.last() == self.parked_paths[i as int]@);
            }
            if !str_eq(self.parked_paths[i].as_str(), path) {
                kept.push(self.parked_paths[i].clone());
                assert(views_of(kept@) =~= done.push(self.parked_paths[i as int]@));
            }
            i += 1;
        }
        assert(before.take(i as int) =~= before);
        self.parked_paths = kept;
    }

    /// Stores the settings of a site under `domain`, in place of what was
    /// there.
    pub fn add_site(&mut self, domain: String, config: SiteConfig)
        ensures
            final(self)@ == (ServerConfigView {
                sites: old(self)@.sites.insert(domain@, config@),
                ..old(self)@
            }),
    {
        self.sites.insert(domain, config);
        assert(self@.sites =~= old(self)@.sites.insert(domain@, config@));
    }

    /// Takes the settings of a site out and returns them.
    pub fn remove_site(&mut self, domain: &str) -> (r: Option<SiteConfig>)
        ensures
            final(self)@ == (ServerConfigView {
                sites: old(self)@.sites.remove(domain@),
                ..old(self)@
            }),
            match r {
                Some(c) => old(self)@.sites.contains_key(domain@) && c@ == old(self)@.sites[domain@],
                None => !old(self)@.sites.contains_key(domain@),
            },
    {
        let r = self.sites.remove(domain);
        assert(self@.sites =~= old(self)@.sites.remove(domain@));
        r
    }

    /// Names the site that answers where no other does, or says that there
    /// is none.
    pub fn set_default_site(&mut self, path: Option<&str>)
        ensures
            final(self)@ == (ServerConfigView {
                default_site: match path {
                    Some(p) => Some(p@),
                    None => None,
                },
                ..old(self)@
            }),
    {
        self.default_site = match path {
            Some(p) => Some(p.to_owned()),
            None => None,
        };
    }
}

impl Default for ServerConfig {
    /// The settings that a server starts from, with as many worker threads
    /// as the machine has CPUs.
    fn default() -> (c: Self)
        ensures
            c@ == default_view(c.threads),
            c.threads >= 1,
    {
        ServerConfig::with_threads(num_cpus::get())
    }
}

} // verus!
