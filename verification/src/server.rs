//! What an HTTP request gets.
//!
//! The host of the request names the site. A static file below the asset
//! root of the site's driver is handed out as it is; every other request goes
//! to the front controller of the driver.

use std::sync::Arc;
use vstd::prelude::*;
use vstd::string::StrSliceExecFns;
use crate::driver::Driver;
use crate::fs::{EntryKind, FileSystem};
use crate::path::within;
use crate::site::{ManagerView, Site, SiteManager, SiteView};
use crate::text::chars_of;

verus! {

/// Whether `c` is one of the digits `0` to `9`.
pub open spec fn is_digit(c: char) -> bool {
    '0' <= c <= '9'
}

/// Whether the port of `host` starts behind place `i`: a colon stands there,
/// and only digits follow it.
pub open spec fn port_starts_behind(host: Seq<char>, i: int) -> bool {
    &&& 0 <= i < host.len()
    &&& host[i] == ':'
    &&& forall|j: int| i < j < host.len() ==> is_digit(#[trigger] host[j])
}

/// `host` without its port, if it has one.
pub open spec fn strip_port_spec(host: Seq<char>) -> Seq<char> {
    if exists|i: int| port_starts_behind(host, i) {
        host.take(choose|i: int| port_starts_behind(host, i))
    } else {
        host
    }
}

/// A host has its port in one place at most.
pub proof fn lemma_port_place_is_unique(host: Seq<char>, i: int, j: int)
    requires
        port_starts_behind(host, i),
        port_starts_behind(host, j),
    ensures
        i == j,
{
    if i < j {
        assert(is_digit(host[j]));
    }
    if j < i {
        assert(is_digit(host[i]));
    }
}

/// `host` without its port, if it has one.
pub fn strip_port(host: &str) -> (r: &str)
    ensures
        r@ == strip_port_spec(host@),
{
    let c = chars_of(host);
    let n = c.len();
    let mut i: usize = n;
    while i > 0 && '0' <= c[i - 1] && c[i - 1] <= '9'
        invariant
            i <= n,
            n == c@.len(),
            c@ == host@,
            forall|j: int| i <= j < n ==> is_digit(#[trigger] host@[j]),
        decreases i,
    {
        i -= 1;
    }
    if i > 0 && c[i - 1] == ':' {
        proof {
            let k = (i - 1) as int;
            assert(port_starts_behind(host@, k));
            let chosen = choose|q: int| port_starts_behind(host@, q);
            lemma_port_place_is_unique(host@, k, chosen);
            assert(host@.subrange(0, k) =~= host@.take(k));
        }
        host.substring_char(0, i - 1)
    } else {
        proof {
            if exists|q: int| port_starts_behind(host@, q) {
                let q = choose|q: int| port_starts_behind(host@, q);
                if q >= i {
                    assert(is_digit(host@[q]));
                } else if i > 0 {
                    if q < i - 1 {
                        assert(is_digit(host@[i - 1]));
                    }
                }
            }
            assert(host@.subrange(0, n as int) =~= host@);
        }
        host
    }
}

/// What a request gets.
#[derive(Debug)]
pub enum Response {
    /// The bytes of this file, as they are.
    File(String),
    /// What running this front controller gives.
    Execute(String),
    /// No site is linked under the host of the request.
    NotFound,
    /// The request names no host.
    BadRequest,
}

/// A response as a value of the model.
pub enum ResponseView {
    File(Seq<char>),
    Execute(Seq<char>),
    NotFound,
    BadRequest,
}

impl View for Response {
    type V = ResponseView;

    open spec fn view(&self) -> ResponseView {
        match self {
            Response::File(p) => ResponseView::File(p@),
            Response::Execute(p) => ResponseView::Execute(p@),
            Response::NotFound => ResponseView::NotFound,
            Response::BadRequest => ResponseView::BadRequest,
        }
    }
}

/// What a request for `uri` gets from `site`: the static file that it names,
/// if it names one, and the front controller otherwise.
pub open spec fn serve_spec(
    site: SiteView,
    fs: Map<Seq<char>, EntryKind>,
    uri: Seq<char>,
) -> ResponseView {
    match site.driver.static_file(fs, site.root_dir, uri) {
        Some(path) => ResponseView::File(path),
        None => ResponseView::Execute(site.driver.front_controller(site.root_dir)),
    }
}

/// The site that answers for `host`: the site linked under the host without
/// its port; failing that, the default site, if there is one and it is
/// linked.
pub open spec fn site_for(
    manager: ManagerView,
    default_site: Option<Seq<char>>,
    host: Seq<char>,
) -> Option<SiteView> {
    let domain = strip_port_spec(host);
    if manager.sites.contains_key(domain) {
        Some(manager.sites[domain])
    } else {
        match default_site {
            Some(d) => if manager.sites.contains_key(d) {
                Some(manager.sites[d])
            } else {
                None
            },
            None => None,
        }
    }
}

/// What a request with the header `host` for `uri` gets.
pub open spec fn route_spec(
    manager: ManagerView,
    default_site: Option<Seq<char>>,
    fs: Map<Seq<char>, EntryKind>,
    host: Option<Seq<char>>,
    uri: Seq<char>,
) -> ResponseView {
    match host {
        None => ResponseView::BadRequest,
        Some(h) => match site_for(manager, default_site, h) {
            None => ResponseView::NotFound,
            Some(site) => serve_spec(site, fs, uri),
        },
    }
}

/// A file that is handed out lies in the subtree of the asset root of the
/// site's driver, and it is a file; and where the request names a static
/// file, the front controller is not asked.
pub proof fn lemma_served_file_is_an_asset(
    site: SiteView,
    fs: Map<Seq<char>, EntryKind>,
    uri: Seq<char>,
)
    ensures
        serve_spec(site, fs, uri) matches ResponseView::File(p) ==> within(
            site.driver.asset_root(site.root_dir),
            p,
        ) && fs.contains_key(p) && fs[p] == EntryKind::File,
        site.driver.static_file(fs, site.root_dir, uri) is Some ==> serve_spec(site, fs, uri)
            is File,
        site.driver.static_file(fs, site.root_dir, uri) is None ==> serve_spec(site, fs, uri)
            == ResponseView::Execute(site.driver.front_controller(site.root_dir)),
{
    crate::driver::lemma_static_file_within_asset_root(site.driver, fs, site.root_dir, uri);
}

/// What a request for `uri` gets from `site`.
pub fn serve(site: &Site, fs: &FileSystem, uri: &str) -> (r: Response)
    ensures
        r@ == serve_spec(site@, fs@, uri@),
{
    match site.driver.is_static_file(fs, site.root_dir.as_str(), uri) {
        Some(path) => Response::File(path),
        None => Response::Execute(site.driver.front_controller_path(site.root_dir.as_str())),
    }
}

/// The text of a string slice that may be absent.
pub open spec fn str_option_view(s: Option<&str>) -> Option<Seq<char>> {
    match s {
        Some(s) => Some(s@),
        None => None,
    }
}

/// What a request with the header `host` for `uri` gets.
pub fn route(
    manager: &SiteManager,
    default_site: Option<&str>,
    fs: &FileSystem,
    host: Option<&str>,
    uri: &str,
) -> (r: Response)
    ensures
        r@ == route_spec(
            manager@,
            str_option_view(default_site),
            fs@,
            str_option_view(host),
            uri@,
        ),
{
    let host = match host {
        Some(h) => h,
        None => {
            return Response::BadRequest;
        },
    };
    let domain = strip_port(host);
    match manager.get_site(domain) {
        Some(site) => serve(site, fs, uri),
        None => match default_site {
            Some(d) => match manager.get_site(d) {
                Some(site) => serve(site, fs, uri),
                None => Response::NotFound,
            },
            None => Response::NotFound,
        },
    }
}

/// Answers HTTP requests from the sites of a manager.
pub struct MiniServer {
    site_manager: Arc<SiteManager>,
    default_site: Option<String>,
}

impl MiniServer {
    /// The manager whose sites are served.
    pub closed spec fn manager(&self) -> ManagerView {
        (*self.site_manager)@
    }

    /// The domain of the site that answers for the hosts under which nothing
    /// is linked.
    pub closed spec fn default_site(&self) -> Option<Seq<char>> {
        match self.default_site {
            Some(d) => Some(d@),
            None => None,
        }
    }

    /// A server for the sites of `site_manager`, without a default site.
    pub fn new(site_manager: Arc<SiteManager>) -> (s: Self)
        ensures
            s.manager() == (*site_manager)@,
            s.default_site() is None,
    {
        MiniServer { site_manager, default_site: None }
    }

    /// The server with the site linked under `domain` as its default site.
    pub fn with_default_site(self, domain: &str) -> (s: Self)
        ensures
            s.manager() == self.manager(),
            s.default_site() == Some(domain@),
    {
        MiniServer { site_manager: self.site_manager, default_site: Some(domain.to_owned()) }
    }

    /// What a request with the header `host` for `uri` gets.
    pub fn handle_request(&self, fs: &FileSystem, host: Option<&str>, uri: &str) -> (r: Response)
        ensures
            r@ == route_spec(self.manager(), self.default_site(), fs@, str_option_view(host), uri@),
    {
        let default_site = match &self.default_site {
            Some(d) => Some(d.as_str()),
            None => None,
        };
        route(&*self.site_manager, default_site, fs, host, uri)
    }
}

} // verus!
