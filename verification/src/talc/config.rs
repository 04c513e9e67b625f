//! How a heap is laid out in its region, and what is recorded of it.

use super::geometry::{Geometry, GeometryError};
use crate::schema::{schema_id, LayoutInfo, SchemaKey, SharedSchema};
use vstd::prelude::*;

verus! {

#[derive(Debug, Clone, Copy)]
pub struct Config {
    pub(crate) forward: u64,
    pub(crate) size: u64,
    pub(crate) geometry: Option<Geometry>,
}

impl Config {
    pub closed spec fn forward_spec(self) -> u64 {
        self.forward
    }

    pub closed spec fn size_spec(self) -> u64 {
        self.size
    }

    pub closed spec fn explicit(self) -> Option<Geometry> {
        self.geometry
    }

    pub closed spec fn of_size(size: u64) -> Self {
        Config { forward: 0, size, geometry: None }
    }

    pub fn new(size: u64) -> (made: Self)
        ensures
            made == Self::of_size(size),
            made.forward_spec() == 0,
            made.size_spec() == size,
            made.explicit() is None,
    {
        Config { forward: 0, size, geometry: None }
    }

    pub closed spec fn of_geometry(self, geometry: Geometry) -> Self {
        Config { forward: self.forward, size: self.size, geometry: Some(geometry) }
    }

    pub fn with_geometry(self, geometry: Geometry) -> (made: Self)
        ensures
            made == self.of_geometry(geometry),
            made.forward_spec() == self.forward_spec(),
            made.size_spec() == self.size_spec(),
            made.explicit() == Some(geometry),
    {
        Config { forward: self.forward, size: self.size, geometry: Some(geometry) }
    }

    pub fn size(&self) -> (size: u64)
        ensures
            size == self.size_spec(),
    {
        self.size
    }

    /// The explicit geometry where it serves the heap, else the automatic one.
    pub fn geometry(self) -> (geometry: Result<Geometry, GeometryError>)
        ensures
            match geometry_of(self) {
                Some(found) => geometry == Ok::<Geometry, GeometryError>(found) && found.valid(
                    self.size_spec() as int,
                ),
                None => geometry is Err,
            },
            self.explicit() is Some && geometry is Err ==> geometry == Err::<
                Geometry,
                GeometryError,
            >(GeometryError::Invalid),
            self.size_spec() >= 1024 && self.explicit() is None ==> geometry is Ok,
    {
        match self.geometry {
            Some(geometry) => match geometry.validate(self.size) {
                Ok(()) => Ok(geometry),
                Err(error) => Err(error),
            },
            None => {
                let made = Geometry::auto(self.size);
                proof {
                    lemma_auto(self, made);
                }
                made
            },
        }
    }

    /// The configuration that is kept inside the first `bound` bytes.
    pub closed spec fn bounded(self, bound: u64) -> Self {
        let size = if self.size < bound {
            self.size
        } else {
            bound
        };
        Config { forward: self.forward, size: (size - self.forward) as u64, geometry: self.geometry }
    }

    /// Keeps `[forward][size]` inside the first `bound` bytes: with a size of
    /// 100, a forward of 10 and a bound of 50, the size becomes 40.
    pub fn with_bound(self, bound: u64) -> (made: Self)
        requires
            bound > self.forward_spec(),
            self.size_spec() >= self.forward_spec(),
        ensures
            made == self.bounded(bound),
            made.forward_spec() == self.forward_spec(),
            made.explicit() == self.explicit(),
            made.size_spec() == (if self.size_spec() < bound {
                self.size_spec()
            } else {
                bound
            }) - self.forward_spec(),
    {
        let size: u64 = if self.size < bound {
            self.size
        } else {
            bound
        };
        Config { forward: self.forward, size: size - self.forward, geometry: self.geometry }
    }

    /// What is recorded of the heap; a size that no geometry serves is recorded
    /// with a geometry of one bin.
    pub fn info(&self) -> (info: TalcInfo)
        ensures
            info == info_of(*self),
            info.usable_offset_spec() == self.forward_spec(),
            info.usable_length_spec() == self.size_spec(),
            info.geometry_spec() == (match geometry_of(*self) {
                Some(geometry) => geometry,
                None => single_bin(),
            }),
    {
        let geometry = match self.geometry() {
            Ok(geometry) => geometry,
            Err(_) => Geometry {
                bins: 1,
                linear: 1,
                linear_shift: 0,
                exponential_log: 0,
                divisions_log: 0,
                reserved: 0,
            },
        };
        TalcInfo { geometry, usable_offset: self.forward, usable_length: self.size }
    }
}

/// The geometry of a configuration: the given one where it serves the heap, and
/// the automatic one where none is given.
pub open spec fn geometry_of(conf: Config) -> Option<Geometry> {
    let size = conf.size_spec() as int;
    match conf.explicit() {
        Some(geometry) => if geometry.valid(size) {
            Some(geometry)
        } else {
            None
        },
        None => if exists|geometry: Geometry| super::geometry::is_auto(size, geometry) {
            Some(choose|geometry: Geometry| super::geometry::is_auto(size, geometry))
        } else {
            None
        },
    }
}

/// What a configuration is made of.
pub proof fn law_configurations_are_their_parts(
    size: u64,
    conf: Config,
    geometry: Geometry,
    bound: u64,
)
    ensures
        Config::of_size(size).forward_spec() == 0,
        Config::of_size(size).size_spec() == size,
        Config::of_size(size).explicit() is None,
        conf.of_geometry(geometry).forward_spec() == conf.forward_spec(),
        conf.of_geometry(geometry).size_spec() == conf.size_spec(),
        conf.of_geometry(geometry).explicit() == Some(geometry),
        conf.bounded(bound).forward_spec() == conf.forward_spec(),
        conf.bounded(bound).explicit() == conf.explicit(),
        conf.forward_spec() < bound && conf.forward_spec() <= conf.size_spec() ==> conf.bounded(
            bound,
        ).size_spec() == (if conf.size_spec() < bound {
            conf.size_spec()
        } else {
            bound
        }) - conf.forward_spec(),
{
}

/// The record of a configuration says where its heap lies and what geometry it
/// has.
pub proof fn law_records_are_their_parts(conf: Config)
    ensures
        info_of(conf).usable_offset_spec() == conf.forward_spec(),
        info_of(conf).usable_length_spec() == conf.size_spec(),
        info_of(conf).geometry_spec() == (match geometry_of(conf) {
            Some(geometry) => geometry,
            None => single_bin(),
        }),
{
}

/// The geometry that is recorded where none serves has one class.
pub proof fn law_the_single_bin_is_a_geometry()
    ensures
        single_bin().bins_spec() == 1,
        single_bin().wf(),
{
    super::geometry::lemma_parts(single_bin());
    assert(vstd::arithmetic::power2::pow2(0) == 1) by {
        vstd::arithmetic::power2::lemma2_to64();
    }
}

/// What is recorded of a heap of this configuration.
pub closed spec fn info_of(conf: Config) -> TalcInfo {
    TalcInfo {
        geometry: match geometry_of(conf) {
            Some(geometry) => geometry,
            None => single_bin(),
        },
        usable_offset: conf.forward_spec(),
        usable_length: conf.size_spec(),
    }
}

proof fn lemma_auto(conf: Config, made: Result<Geometry, GeometryError>)
    requires
        conf.explicit() is None,
        ({
            let extent = conf.size_spec() as int;
            match made {
                Ok(geometry) => super::geometry::is_auto(extent, geometry),
                Err(GeometryError::TooSmall) => extent < super::geometry::MIN_CHUNK_SIZE,
                Err(GeometryError::TooManyBins) => forall|shift: int, divisions: int|
                    super::geometry::auto_range(extent, shift, divisions)
                        ==> !#[trigger] super::geometry::auto_fits(extent, shift, divisions),
                Err(GeometryError::Invalid) => exists|shift: int, divisions: int|
                    #[trigger] super::geometry::auto_choice(extent, shift, divisions) && forall|
                        geometry: Geometry,
                    |
                        geometry.is_shaped(
                            crate::numeric::log2(extent as nat) as int,
                            shift,
                            super::geometry::auto_log(extent),
                            divisions,
                        ) ==> !#[trigger] geometry.valid(extent),
            }
        }),
    ensures
        match made {
            Ok(geometry) => geometry_of(conf) == Some(geometry),
            Err(_) => geometry_of(conf) is None,
        },
{
    let extent = conf.size_spec() as int;
    match made {
        Ok(geometry) => {
            let chosen = choose|geometry: Geometry| super::geometry::is_auto(extent, geometry);
            super::geometry::law_auto_is_unique(extent, geometry, chosen);
        },
        Err(GeometryError::Invalid) => {
            let (shift, divisions) = choose|shift: int, divisions: int|
                #[trigger] super::geometry::auto_choice(extent, shift, divisions) && forall|
                    geometry: Geometry,
                |
                    geometry.is_shaped(
                        crate::numeric::log2(extent as nat) as int,
                        shift,
                        super::geometry::auto_log(extent),
                        divisions,
                    ) ==> !#[trigger] geometry.valid(extent);
            assert forall|geometry: Geometry| !super::geometry::is_auto(extent, geometry) by {
                if super::geometry::is_auto(extent, geometry) {
                    super::geometry::lemma_choice_is_unique(
                        extent,
                        shift,
                        divisions,
                        geometry.linear_shift_spec(),
                        geometry.divisions_log_spec(),
                    );
                    assert(!geometry.valid(extent));
                }
            }
        },
        Err(_) => {
            assert forall|geometry: Geometry| !super::geometry::is_auto(extent, geometry) by {
                if super::geometry::is_auto(extent, geometry) {
                    assert(super::geometry::auto_fits(
                        extent,
                        geometry.linear_shift_spec(),
                        geometry.divisions_log_spec(),
                    ));
                }
            }
        },
    }
}

/// The geometry that is recorded where none serves.
pub closed spec fn single_bin() -> Geometry {
    Geometry {
        bins: 1,
        linear: 1,
        linear_shift: 0,
        exponential_log: 0,
        divisions_log: 0,
        reserved: 0,
    }
}

/// What the header of a heap records.
#[derive(Clone, Copy, Debug, PartialEq, Eq, Structural)]
pub struct TalcInfo {
    pub(crate) geometry: Geometry,
    pub(crate) usable_offset: u64,
    pub(crate) usable_length: u64,
}

impl TalcInfo {
    pub closed spec fn geometry_spec(self) -> Geometry {
        self.geometry
    }

    pub closed spec fn usable_offset_spec(self) -> u64 {
        self.usable_offset
    }

    pub closed spec fn usable_length_spec(self) -> u64 {
        self.usable_length
    }

    pub fn usable_offset(&self) -> (offset: u64)
        ensures
            offset == self.usable_offset_spec(),
    {
        self.usable_offset
    }

    pub fn usable_length(&self) -> (length: u64)
        ensures
            length == self.usable_length_spec(),
    {
        self.usable_length
    }
}

impl SharedSchema for TalcInfo {
    open spec fn schema_spec() -> SchemaKey {
        SchemaKey { id: crate::schema::schema_id_spec("evering.talc.info"), revision: 2 }
    }

    fn schema() -> (key: SchemaKey) {
        SchemaKey::new(schema_id("evering.talc.info"), 2)
    }
}

impl LayoutInfo for TalcInfo {
    fn same(&self, other: &Self) -> (same: bool) {
        *self == *other
    }
}

} // verus!
