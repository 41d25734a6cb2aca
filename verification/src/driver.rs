//! Drivers: what kind of project lives in a directory, and how it is served.
//!
//! A driver looks for marker files to tell whether a directory holds a
//! project of its kind, maps a request to a static file below its asset
//! root, and names the front controller that takes every other request.

use vstd::prelude::*;
use crate::fs::{EntryKind, FileSystem};
use crate::path::{
    contains_parent_segment,
    has_parent_segment,
    join,
    join_spec,
    lemma_join_within,
    lemma_trim,
    trim_leading_slashes,
    trim_spec,
    within,
};
use crate::text::views_of;

verus! {

/// The file that a request for `uri` names below `asset_root`, if it is one:
/// the leading separators of `uri` do not count, a `uri` with a segment `..`
/// names nothing, and only a file is a static file.
pub open spec fn resolve_spec(
    fs: Map<Seq<char>, EntryKind>,
    asset_root: Seq<char>,
    uri: Seq<char>,
) -> Option<Seq<char>> {
    let rel = trim_spec(uri);
    let candidate = join_spec(asset_root, rel);
    if !has_parent_segment(rel) && fs.contains_key(candidate) && fs[candidate]
        == EntryKind::File {
        Some(candidate)
    } else {
        None
    }
}

/// Whatever a request resolves to is a file in the subtree of the asset root.
pub proof fn lemma_resolved_within(
    fs: Map<Seq<char>, EntryKind>,
    asset_root: Seq<char>,
    uri: Seq<char>,
)
    ensures
        resolve_spec(fs, asset_root, uri) matches Some(p) ==> within(asset_root, p)
            && fs.contains_key(p) && fs[p] == EntryKind::File,
{
    lemma_trim(uri);
    if resolve_spec(fs, asset_root, uri) is Some {
        lemma_join_within(asset_root, trim_spec(uri));
    }
}

/// The file that a request for `uri` names below `asset_root`.
pub fn resolve_static(fs: &FileSystem, asset_root: &str, uri: &str) -> (r: Option<String>)
    ensures
        match r {
            Some(p) => resolve_spec(fs@, asset_root@, uri@) == Some(p@),
            None => resolve_spec(fs@, asset_root@, uri@) is None,
        },
        r matches Some(p) ==> within(asset_root@, p@),
{
    proof {
        lemma_resolved_within(fs@, asset_root@, uri@);
    }
    let rel = trim_leading_slashes(uri);
    if contains_parent_segment(rel) {
        return None;
    }
    let candidate = join(asset_root, rel);
    if fs.is_file(candidate.as_str()) {
        Some(candidate)
    } else {
        None
    }
}

/// Whether each of `markers`, seen from the directory `site`, exists.
pub open spec fn all_present(
    fs: Map<Seq<char>, EntryKind>,
    site: Seq<char>,
    markers: Seq<Seq<char>>,
) -> bool {
    forall|i: int| 0 <= i < markers.len() ==> fs.contains_key(join_spec(site, #[trigger] markers[i]))
}

/// What a driver is, as far as its behaviour goes.
pub enum DriverView {
    /// Plain files behind an index page.
    Static,
    /// A Laravel application.
    Laravel,
    /// A project kind that is described by its marker files.
    Custom {
        name: Seq<char>,
        markers: Seq<Seq<char>>,
        public_dir: Seq<char>,
        front_controller: Seq<char>,
    },
}

impl DriverView {
    /// The name by which the driver is known.
    pub open spec fn name(self) -> Seq<char> {
        match self {
            DriverView::Static => "static"@,
            DriverView::Laravel => "laravel"@,
            DriverView::Custom { name, .. } => name,
        }
    }

    /// Whether the directory `site` holds a project of this kind.
    pub open spec fn serves(self, fs: Map<Seq<char>, EntryKind>, site: Seq<char>) -> bool {
        match self {
            DriverView::Static => fs.contains_key(join_spec(site, "index.html"@))
                || fs.contains_key(join_spec(site, "index.htm"@)),
            DriverView::Laravel => fs.contains_key(join_spec(site, "artisan"@))
                && fs.contains_key(join_spec(site, "public/index.php"@)),
            DriverView::Custom { markers, .. } => all_present(fs, site, markers),
        }
    }

    /// The directory below which the static files of `site` lie.
    pub open spec fn asset_root(self, site: Seq<char>) -> Seq<char> {
        match self {
            DriverView::Static => site,
            DriverView::Laravel => join_spec(site, "public"@),
            DriverView::Custom { public_dir, .. } => join_spec(site, public_dir),
        }
    }

    /// The entry point that takes the requests for which there is no static
    /// file.
    pub open spec fn front_controller(self, site: Seq<char>) -> Seq<char> {
        match self {
            DriverView::Static => join_spec(site, "index.html"@),
            DriverView::Laravel => join_spec(site, "public/index.php"@),
            DriverView::Custom { front_controller, .. } => join_spec(site, front_controller),
        }
    }

    /// The static file that a request for `uri` names, if it names one.
    pub open spec fn static_file(
        self,
        fs: Map<Seq<char>, EntryKind>,
        site: Seq<char>,
        uri: Seq<char>,
    ) -> Option<Seq<char>> {
        resolve_spec(fs, self.asset_root(site), uri)
    }

    /// What setting the directory `site` up for this driver comes to: success,
    /// or the reason why it failed. None of the kinds of driver has anything
    /// to set up, so each of them succeeds.
    pub open spec fn setup(self, site: Seq<char>) -> Result<(), Seq<char>> {
        match self {
            DriverView::Static => Ok(()),
            DriverView::Laravel => Ok(()),
            DriverView::Custom { .. } => Ok(()),
        }
    }
}

/// What a set-up came to, with the reason of a failure as a text.
pub open spec fn outcome_view(r: Result<(), String>) -> Result<(), Seq<char>> {
    match r {
        Ok(()) => Ok(()),
        Err(reason) => Err(reason@),
    }
}

/// No driver hands out a path outside its asset root, whatever else exists:
/// what it resolves is a file in the subtree of that root.
pub proof fn lemma_static_file_within_asset_root(
    driver: DriverView,
    fs: Map<Seq<char>, EntryKind>,
    site: Seq<char>,
    uri: Seq<char>,
)
    ensures
        driver.static_file(fs, site, uri) matches Some(p) ==> within(driver.asset_root(site), p)
            && fs.contains_key(p) && fs[p] == EntryKind::File,
{
    lemma_resolved_within(fs, driver.asset_root(site), uri);
}

/// What every driver can do.
pub trait Driver {
    /// The driver as a value of the model.
    spec fn model(&self) -> DriverView;

    /// Whether the directory `site_path` holds a project of this kind.
    fn serves(&self, fs: &FileSystem, site_path: &str) -> (b: bool)
        ensures
            b == self.model().serves(fs@, site_path@),
    ;

    /// The static file that a request for `uri` names, if it names one.
    fn is_static_file(&self, fs: &FileSystem, site_path: &str, uri: &str) -> (r: Option<String>)
        ensures
            match r {
                Some(p) => self.model().static_file(fs@, site_path@, uri@) == Some(p@),
                None => self.model().static_file(fs@, site_path@, uri@) is None,
            },
            r matches Some(p) ==> within(self.model().asset_root(site_path@), p@),
    ;

    /// The entry point that takes the requests for which there is no static
    /// file. Nothing says that it exists.
    fn front_controller_path(&self, site_path: &str) -> (p: String)
        ensures
            p@ == self.model().front_controller(site_path@),
    ;

    /// The name by which the driver is known.
    fn name(&self) -> (s: &str)
        ensures
            s@ == self.model().name(),
    ;

    /// Does what is to be done once when a site is first served by this
    /// driver, and says what it came to.
    fn setup(&self, site_path: &str) -> (r: Result<(), String>)
        ensures
            outcome_view(r) == self.model().setup(site_path@),
    {
        Ok(())
    }
}

/// Serves plain files behind an index page.
#[derive(Clone, Copy, Debug)]
pub struct StaticDriver;

impl Driver for StaticDriver {
    open spec fn model(&self) -> DriverView {
        DriverView::Static
    }

    fn serves(&self, fs: &FileSystem, site_path: &str) -> (b: bool) {
        fs.contains(join(site_path, "index.html").as_str()) || fs.contains(
            join(site_path, "index.htm").as_str(),
        )
    }

    fn is_static_file(&self, fs: &FileSystem, site_path: &str, uri: &str) -> (r: Option<String>) {
        resolve_static(fs, site_path, uri)
    }

    fn front_controller_path(&self, site_path: &str) -> (p: String) {
        join(site_path, "index.html")
    }

    fn name(&self) -> (s: &str) {
        "static"
    }

    fn setup(&self, site_path: &str) -> (r: Result<(), String>)
        ensures
            r is Ok,
    {
        Ok(())
    }
}

/// Serves Laravel applications.
#[derive(Clone, Copy, Debug)]
pub struct LaravelDriver;

impl Driver for LaravelDriver {
    open spec fn model(&self) -> DriverView {
        DriverView::Laravel
    }

    fn serves(&self, fs: &FileSystem, site_path: &str) -> (b: bool) {
        let has_artisan = fs.contains(join(site_path, "artisan").as_str());
        let has_public_index = fs.contains(join(site_path, "public/index.php").as_str());
        has_artisan && has_public_index
    }

    fn is_static_file(&self, fs: &FileSystem, site_path: &str, uri: &str) -> (r: Option<String>) {
        let public_path = join(site_path, "public");
        resolve_static(fs, public_path.as_str(), uri)
    }

    fn front_controller_path(&self, site_path: &str) -> (p: String) {
        join(site_path, "public/index.php")
    }

    fn name(&self) -> (s: &str) {
        "laravel"
    }

    fn setup(&self, site_path: &str) -> (r: Result<(), String>)
        ensures
            r is Ok,
    {
        Ok(())
    }
}

/// A project kind that is described by data: it lives in a directory when
/// all of its marker files are there.
#[derive(Debug)]
pub struct CustomDriver {
    pub name: String,
    pub markers: Vec<String>,
    pub public_dir: String,
    pub front_controller: String,
}

impl CustomDriver {
    /// A driver called `name` for the directories that hold all of
    /// `markers`, with its static files below `public_dir` and its front
    /// controller at `front_controller`; the three are paths relative to the
    /// site's directory.
    pub fn new(name: &str, markers: Vec<String>, public_dir: &str, front_controller: &str) -> (d:
        Self)
        ensures
            d.model() == (DriverView::Custom {
                name: name@,
                markers: views_of(markers@),
                public_dir: public_dir@,
                front_controller: front_controller@,
            }),
    {
        CustomDriver {
            name: name.to_owned(),
            markers,
            public_dir: public_dir.to_owned(),
            front_controller: front_controller.to_owned(),
        }
    }
}

impl Clone for CustomDriver {
    fn clone(&self) -> (d: Self)
        ensures
            d.model() == self.model(),
    {
        let mut markers: Vec<String> = Vec::new();
        let mut i: usize = 0;
        while i < self.markers.len()
            invariant
                i <= self.markers.len(),
                markers.len() == i,
                forall|j: int| 0 <= j < i ==> markers[j]@ == self.markers[j]@,
            decreases self.markers.len() - i,
        {
            markers.push(self.markers[i].clone());
            i += 1;
        }
        assert(views_of(markers@) =~= views_of(self.markers@));
        CustomDriver {
            name: self.name.clone(),
            markers,
            public_dir: self.public_dir.clone(),
            front_controller: self.front_controller.clone(),
        }
    }
}

impl Driver for CustomDriver {
    open spec fn model(&self) -> DriverView {
        DriverView::Custom {
            name: self.name@,
            markers: views_of(self.markers@),
            public_dir: self.public_dir@,
            front_controller: self.front_controller@,
        }
    }

    fn serves(&self, fs: &FileSystem, site_path: &str) -> (b: bool) {
        let ghost markers = views_of(self.markers@);
        let mut i: usize = 0;
        while i < self.markers.len()
            invariant
                i <= self.markers.len(),
                markers == views_of(self.markers@),
                forall|j: int|
                    0 <= j < i ==> fs@.contains_key(join_spec(site_path@, #[trigger] markers[j])),
            decreases self.markers.len() - i,
        {
            assert(markers.len() == self.markers.len());
            assert(markers[i as int] == self.markers[i as int]@);
            if !fs.contains(join(site_path, self.markers[i].as_str()).as_str()) {
                assert(!fs@.contains_key(join_spec(site_path@, markers[i as int])));
                assert(!all_present(fs@, site_path@, markers));
                return false;
            }
            i += 1;
        }
        true
    }

    fn is_static_file(&self, fs: &FileSystem, site_path: &str, uri: &str) -> (r: Option<String>) {
        let public_path = join(site_path, self.public_dir.as_str());
        resolve_static(fs, public_path.as_str(), uri)
    }

    fn front_controller_path(&self, site_path: &str) -> (p: String) {
        join(site_path, self.front_controller.as_str())
    }

    fn name(&self) -> (s: &str) {
        self.name.as_str()
    }

    fn setup(&self, site_path: &str) -> (r: Result<(), String>)
        ensures
            r is Ok,
    {
        Ok(())
    }
}

/// One driver of any of the kinds that this library knows.
#[derive(Debug)]
pub enum AnyDriver {
    Static(StaticDriver),
    Laravel(LaravelDriver),
    Custom(CustomDriver),
}

impl Clone for AnyDriver {
    fn clone(&self) -> (d: Self)
        ensures
            d.model() == self.model(),
    {
        match self {
            AnyDriver::Static(_) => AnyDriver::Static(StaticDriver),
            AnyDriver::Laravel(_) => AnyDriver::Laravel(LaravelDriver),
            AnyDriver::Custom(c) => AnyDriver::Custom(c.clone()),
        }
    }
}

impl Driver for AnyDriver {
    open spec fn model(&self) -> DriverView {
        match self {
            AnyDriver::Static(d) => d.model(),
            AnyDriver::Laravel(d) => d.model(),
            AnyDriver::Custom(d) => d.model(),
        }
    }

    fn serves(&self, fs: &FileSystem, site_path: &str) -> (b: bool) {
        match self {
            AnyDriver::Static(d) => d.serves(fs, site_path),
            AnyDriver::Laravel(d) => d.serves(fs, site_path),
            AnyDriver::Custom(d) => d.serves(fs, site_path),
        }
    }

    fn is_static_file(&self, fs: &FileSystem, site_path: &str, uri: &str) -> (r: Option<String>) {
        match self {
            AnyDriver::Static(d) => d.is_static_file(fs, site_path, uri),
            AnyDriver::Laravel(d) => d.is_static_file(fs, site_path, uri),
            AnyDriver::Custom(d) => d.is_static_file(fs, site_path, uri),
        }
    }

    fn front_controller_path(&self, site_path: &str) -> (p: String) {
        match self {
            AnyDriver::Static(d) => d.front_controller_path(site_path),
            AnyDriver::Laravel(d) => d.front_controller_path(site_path),
            AnyDriver::Custom(d) => d.front_controller_path(site_path),
        }
    }

    fn name(&self) -> (s: &str) {
        match self {
            AnyDriver::Static(d) => d.name(),
            AnyDriver::Laravel(d) => d.name(),
            AnyDriver::Custom(d) => d.name(),
        }
    }

    fn setup(&self, site_path: &str) -> (r: Result<(), String>)
        ensures
            r is Ok,
    {
        match self {
            AnyDriver::Static(d) => d.setup(site_path),
            AnyDriver::Laravel(d) => d.setup(site_path),
            AnyDriver::Custom(d) => d.setup(site_path),
        }
    }
}

} // verus!
