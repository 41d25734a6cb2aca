//! The drivers that are known, in the order in which they are asked.
//!
//! The order matters: the driver that was registered last is asked first, so
//! that a more specific driver can take a directory that a general one would
//! serve as well.

use vstd::prelude::*;
use crate::driver::{AnyDriver, Driver, DriverView, LaravelDriver, StaticDriver};
use crate::fs::{EntryKind, FileSystem};
use crate::text::str_eq;

verus! {

/// Why a driver could not be added.
#[derive(Clone, Copy, Debug, PartialEq, Eq, Structural)]
pub enum RegistryError {
    /// Drivers cannot be loaded from source files.
    DynamicLoadingUnsupported,
}

impl RegistryError {
    /// The error in words.
    pub fn message(&self) -> (s: &'static str)
        ensures
            s@ == "Dynamic loading of drivers is not yet implemented"@,
    {
        "Dynamic loading of drivers is not yet implemented"
    }
}

/// The first of `drivers` that serves the directory `site`.
pub open spec fn detect_spec(
    drivers: Seq<DriverView>,
    fs: Map<Seq<char>, EntryKind>,
    site: Seq<char>,
) -> Option<DriverView>
    decreases drivers.len(),
{
    if drivers.len() == 0 {
        None
    } else if drivers[0].serves(fs, site) {
        Some(drivers[0])
    } else {
        detect_spec(drivers.drop_first(), fs, site)
    }
}

/// The first of `drivers` that is called `name`.
pub open spec fn find_spec(drivers: Seq<DriverView>, name: Seq<char>) -> Option<DriverView>
    decreases drivers.len(),
{
    if drivers.len() == 0 {
        None
    } else if drivers[0].name() == name {
        Some(drivers[0])
    } else {
        find_spec(drivers.drop_first(), name)
    }
}

/// Detection finds a driver exactly when one serves the directory, and then
/// it is the first such driver in the order.
pub proof fn lemma_detect_is_first_match(
    drivers: Seq<DriverView>,
    fs: Map<Seq<char>, EntryKind>,
    site: Seq<char>,
)
    ensures
        match detect_spec(drivers, fs, site) {
            Some(d) => exists|i: int|
                0 <= i < drivers.len() && #[trigger] drivers[i] == d && d.serves(fs, site)
                    && forall|j: int| 0 <= j < i ==> !(#[trigger] drivers[j]).serves(fs, site),
            None => forall|j: int| 0 <= j < drivers.len() ==> !(#[trigger] drivers[j]).serves(
                fs,
                site,
            ),
        },
    decreases drivers.len(),
{
    if drivers.len() == 0 {
    } else if drivers[0].serves(fs, site) {
        assert(drivers[0] == drivers[0]);
    } else {
        let rest = drivers.drop_first();
        lemma_detect_is_first_match(rest, fs, site);
        match detect_spec(rest, fs, site) {
            Some(d) => {
                let i = choose|i: int|
                    0 <= i < rest.len() && #[trigger] rest[i] == d && d.serves(fs, site)
                        && forall|j: int| 0 <= j < i ==> !(#[trigger] rest[j]).serves(fs, site);
                assert(drivers[i + 1] == d);
                assert forall|j: int| 0 <= j < i + 1 implies !(#[trigger] drivers[j]).serves(
                    fs,
                    site,
                ) by {
                    if j > 0 {
                        assert(drivers[j] == rest[j - 1]);
                    }
                }
            },
            None => {
                assert forall|j: int| 0 <= j < drivers.len() implies !(#[trigger] drivers[j]).serves(
                    fs,
                    site,
                ) by {
                    if j > 0 {
                        assert(drivers[j] == rest[j - 1]);
                    }
                }
            },
        }
    }
}

/// A driver that is registered after the others and serves a directory is
/// the one that detection finds for it, whichever of the others serve it too.
pub proof fn lemma_last_registered_wins(
    drivers: Seq<DriverView>,
    newest: DriverView,
    fs: Map<Seq<char>, EntryKind>,
    site: Seq<char>,
)
    requires
        newest.serves(fs, site),
    ensures
        detect_spec(seq![newest] + drivers, fs, site) == Some(newest),
{
    assert((seq![newest] + drivers)[0] == newest);
}

/// A driver that does not serve a directory changes nothing in what
/// detection finds for it.
pub proof fn lemma_unrelated_driver_is_skipped(
    drivers: Seq<DriverView>,
    newest: DriverView,
    fs: Map<Seq<char>, EntryKind>,
    site: Seq<char>,
)
    requires
        !newest.serves(fs, site),
    ensures
        detect_spec(seq![newest] + drivers, fs, site) == detect_spec(drivers, fs, site),
{
    let all = seq![newest] + drivers;
    assert(all[0] == newest);
    assert(all.drop_first() =~= drivers);
}

/// The drivers, the one that is asked first in front.
pub struct DriverRegistry {
    drivers: Vec<AnyDriver>,
}

/// The models of a list of drivers.
pub open spec fn models_of(drivers: Seq<AnyDriver>) -> Seq<DriverView> {
    drivers.map_values(|d: AnyDriver| d.model())
}

impl View for DriverRegistry {
    type V = Seq<DriverView>;

    closed spec fn view(&self) -> Seq<DriverView> {
        models_of(self.drivers@)
    }
}

impl DriverRegistry {
    /// A registry with the two drivers that every registry starts with: the
    /// one for Laravel applications is asked before the one for plain files.
    pub fn new() -> (r: Self)
        ensures
            r@ == seq![DriverView::Laravel, DriverView::Static],
    {
        let mut registry = DriverRegistry { drivers: Vec::new() };
        assert(registry@ =~= Seq::<DriverView>::empty());
        registry.register_driver(AnyDriver::Static(StaticDriver));
        registry.register_driver(AnyDriver::Laravel(LaravelDriver));
        assert(registry@ =~= seq![DriverView::Laravel, DriverView::Static]);
        registry
    }

    /// Puts `driver` in front of all the drivers that are there.
    pub fn register_driver(&mut self, driver: AnyDriver)
        ensures
            final(self)@ == seq![driver.model()] + old(self)@,
    {
        self.drivers.insert(0, driver);
        assert(self@ =~= seq![driver.model()] + old(self)@);
    }

    /// The number of drivers.
    pub fn len(&self) -> (n: usize)
        ensures
            n == self@.len(),
    {
        self.drivers.len()
    }

    /// The first driver that is called `name`.
    pub fn get_driver(&self, name: &str) -> (r: Option<&AnyDriver>)
        ensures
            match r {
                Some(d) => find_spec(self@, name@) == Some(d.model()),
                None => find_spec(self@, name@) is None,
            },
    {
        let mut i: usize = 0;
        assert(self@.skip(0) =~= self@);
        while i < self.drivers.len()
            invariant
                i <= self.drivers.len(),
                find_spec(self@, name@) == find_spec(self@.skip(i as int), name@),
            decreases self.drivers.len() - i,
        {
            let ghost rest = self@.skip(i as int);
            assert(rest[0] == self.drivers[i as int].model());
            assert(rest.drop_first() =~= self@.skip(i + 1));
            if str_eq(self.drivers[i].name(), name) {
                return Some(&self.drivers[i]);
            }
            i += 1;
        }
        None
    }

    /// The first driver that serves the directory `site_path`.
    pub fn detect_driver(&self, fs: &FileSystem, site_path: &str) -> (r: Option<&AnyDriver>)
        ensures
            match r {
                Some(d) => detect_spec(self@, fs@, site_path@) == Some(d.model()),
                None => detect_spec(self@, fs@, site_path@) is None,
            },
    {
        let mut i: usize = 0;
        assert(self@.skip(0) =~= self@);
        while i < self.drivers.len()
            invariant
                i <= self.drivers.len(),
                detect_spec(self@, fs@, site_path@) == detect_spec(
                    self@.skip(i as int),
                    fs@,
                    site_path@,
                ),
            decreases self.drivers.len() - i,
        {
            let ghost rest = self@.skip(i as int);
            assert(rest[0] == self.drivers[i as int].model());
            assert(rest.drop_first() =~= self@.skip(i + 1));
            if self.drivers[i].serves(fs, site_path) {
                return Some(&self.drivers[i]);
            }
            i += 1;
        }
        None
    }

    /// Loading a driver from a source file is not supported: the registry
    /// stays as it is.
    pub fn load_driver_file(&mut self, path: &str) -> (r: Result<(), RegistryError>)
        ensures
            r == Err::<(), RegistryError>(RegistryError::DynamicLoadingUnsupported),
            final(self)@ == old(self)@,
    {
        Err(RegistryError::DynamicLoadingUnsupported)
    }
}

impl Default for DriverRegistry {
    fn default() -> (r: Self)
        ensures
            r@ == seq![DriverView::Laravel, DriverView::Static],
    {
        DriverRegistry::new()
    }
}

} // verus!
