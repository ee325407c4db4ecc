//! Basic notions shared by the whole library: distances, points and sortable items.

use vstd::prelude::*;
use vstd::string::StringExecFns;

verus! {

/// Distance between two [points](Point). Doesn't correspond 1:1 to meters, see [ONE_METER_DISTANCE]
pub type Distance = u64;

/// How many units of [`Distance`] make up one meter.
pub const ONE_METER_DISTANCE: Distance = 65536;

/// Identifier of the camera that took a photo.
pub type CameraId = u32;

/// Point in time of an item, as a signed timestamp. Items are ordered by it.
pub type Time = i64;

/// Anything between which a [`Distance`] can be measured.
pub trait Point: Sized {
    /// The distance that [`Point::distance`] returns.
    spec fn spec_distance(&self, rhs: &Self) -> Distance;

    fn distance(&self, rhs: &Self) -> (d: Distance)
        ensures
            d == self.spec_distance(rhs),
    ;
}

/// Points on a line: the distance is the absolute difference.
impl Point for u64 {
    open spec fn spec_distance(&self, rhs: &Self) -> Distance {
        if *self >= *rhs {
            (*self - *rhs) as u64
        } else {
            (*rhs - *self) as u64
        }
    }

    fn distance(&self, rhs: &Self) -> (d: Distance) {
        if *self >= *rhs {
            *self - *rhs
        } else {
            *rhs - *self
        }
    }
}

/// An item that can be sorted using the geogroup algorithm
///
/// A simple and ready to use implementation is [ConcreteSortableItem]
pub trait SortableItem: Sized {
    type Position: Point + Copy;
    type PositionErr: core::fmt::Debug;

    /// The time that [`SortableItem::get_time`] returns.
    spec fn time(&self) -> Time;

    /// The position that [`SortableItem::get_position`] returns, [`None`] when it returns an error.
    spec fn position(&self) -> Option<Self::Position>;

    /// The camera that [`SortableItem::get_camera`] returns.
    spec fn camera(&self) -> CameraId;

    fn get_time(&self) -> (t: Time)
        ensures
            t == self.time(),
    ;

    fn get_position(&self) -> (p: Result<Self::Position, Self::PositionErr>)
        ensures
            p.ok() == self.position(),
    ;

    fn get_camera(&self) -> (c: CameraId)
        ensures
            c == self.camera(),
    ;
}

/// [`SortableItem`] which specifies its time and point as its fields
///
/// Generic argument `D` is for arbitrary additional data, `PE` is for errors instead of positions
pub struct ConcreteSortableItem<P, D, PE> {
    pub time: Time,
    pub position: Result<P, PE>,
    /// Arbitrary additional data
    pub data: D,
}

impl<P: Point + Copy, D, PE: Clone + core::fmt::Debug> SortableItem for ConcreteSortableItem<P, D, PE> {
    type Position = P;
    type PositionErr = PE;

    open spec fn time(&self) -> Time {
        self.time
    }

    open spec fn position(&self) -> Option<P> {
        self.position.ok()
    }

    /// All items are taken by the same camera.
    open spec fn camera(&self) -> CameraId {
        0
    }

    fn get_time(&self) -> (t: Time) {
        self.time
    }

    fn get_position(&self) -> (p: Result<P, PE>) {
        match &self.position {
            Ok(p) => Ok(*p),
            Err(e) => Err(e.clone()),
        }
    }

    fn get_camera(&self) -> (c: CameraId) {
        0
    }
}

/// A reference to a sortable item is sorted as the item.
impl<'a, T: SortableItem> SortableItem for &'a T {
    type Position = T::Position;
    type PositionErr = T::PositionErr;

    open spec fn time(&self) -> Time {
        (**self).time()
    }

    open spec fn position(&self) -> Option<T::Position> {
        (**self).position()
    }

    open spec fn camera(&self) -> CameraId {
        (**self).camera()
    }

    fn get_time(&self) -> (t: Time) {
        (**self).get_time()
    }

    fn get_position(&self) -> (p: Result<T::Position, T::PositionErr>) {
        (**self).get_position()
    }

    fn get_camera(&self) -> (c: CameraId) {
        (**self).get_camera()
    }
}

/// `a` followed by `b`.
pub(crate) fn concat(a: &str, b: &str) -> (r: String)
    ensures
        r@ == a@ + b@,
{
    let mut r = a.to_owned();
    r.append(b);
    r
}

} // verus!
