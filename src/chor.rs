use vstd::prelude::*;
use vstd::string::StringExecFns;
use crate::json::JsonValue;
use crate::number::{
    Decimal,
    lemma_reflect_twice,
    same_value,
    negated_spec,
    reflect,
    reflect_fits,
    reflected_spec,
};

verus! {

/// Length of the field, in meters: the opposite-alliance mirror reflects
/// `x` across `FIELD_X / 2`.
pub open spec fn field_x_spec() -> Decimal {
    Decimal { negative: false, magnitude: 1754825, scale: 5 }
}

/// Width of the field, in meters: the same-alliance mirror reflects `y`
/// across `FIELD_Y / 2`.
pub open spec fn field_y_spec() -> Decimal {
    Decimal { negative: false, magnitude: 8051902, scale: 6 }
}

/// `17.54825`.
pub fn field_x() -> (r: Decimal)
    ensures
        r == field_x_spec(),
{
    Decimal { negative: false, magnitude: 1754825, scale: 5 }
}

/// `8.051902`.
pub fn field_y() -> (r: Decimal)
    ensures
        r == field_y_spec(),
{
    Decimal { negative: false, magnitude: 8051902, scale: 6 }
}

/// Which of the field's two symmetry planes a mirror uses.
#[derive(Clone, Copy, Debug, PartialEq, Eq, Structural)]
pub enum MirrorMode {
    /// Across the transverse midline: `y` becomes `FIELD_Y - y`.
    SameAlliance,
    /// Across the longitudinal midline: `x` becomes `FIELD_X - x`.
    OppositeAlliance,
}

/// `[x, FIELD_Y - y]`.
pub fn flip_xaxis(x: Decimal, y: Decimal) -> (r: [Decimal; 2])
    requires
        reflect_fits(field_y_spec(), y),
    ensures
        r@[0] == x,
        r@[1] == reflected_spec(field_y_spec(), y),
{
    match reflect(field_y(), y) {
        Some(v) => [x, v],
        // ruled out by `requires`
        None => [x, y],
    }
}

/// `[FIELD_X - x, y]`.
pub fn flip_yaxis(x: Decimal, y: Decimal) -> (r: [Decimal; 2])
    requires
        reflect_fits(field_x_spec(), x),
    ensures
        r@[0] == reflected_spec(field_x_spec(), x),
        r@[1] == y,
{
    match reflect(field_x(), x) {
        Some(v) => [v, y],
        // ruled out by `requires`
        None => [x, y],
    }
}

/// A number with units, and its display string `"<number> <unit>"`.
pub struct ChoreoValue {
    pub exp: String,
    pub val: Decimal,
}

/// The display string of `val` in `unit`.
pub open spec fn exp_text(val: Decimal, unit: Seq<char>) -> Seq<char> {
    val.text_spec() + seq![' '] + unit
}

impl ChoreoValue {
    /// Regenerates the display string from the value.
    pub fn update_exp(&mut self, unit: &str)
        ensures
            final(self).val == old(self).val,
            final(self).exp@ == exp_text(old(self).val, unit@),
    {
        proof {
            reveal_strlit(" ");
        }
        self.exp = self.val.to_text().concat(" ").concat(unit);
    }
}

/// A waypoint of the snapshot: plain numbers in meters and radians.
#[derive(Clone, Copy, Debug)]
pub struct ChoreoSWaypoint {
    pub x: Decimal,
    pub y: Decimal,
    pub heading: Decimal,
    pub intervals: i32,
    pub split: bool,
    pub fix_translation: bool,
    pub fix_heading: bool,
    pub override_intervals: bool,
}

/// The coordinate that `mode` reflects can be reflected exactly.
pub open spec fn coordinate_fits(x: Decimal, y: Decimal, mode: MirrorMode) -> bool {
    match mode {
        MirrorMode::SameAlliance => reflect_fits(field_y_spec(), y),
        MirrorMode::OppositeAlliance => reflect_fits(field_x_spec(), x),
    }
}

impl ChoreoSWaypoint {
    pub open spec fn fits(self, mode: MirrorMode) -> bool {
        coordinate_fits(self.x, self.y, mode)
    }

    /// The waypoint mirrored by `mode`: the reflected coordinate, and the
    /// heading negated.
    pub open spec fn mirrored(self, mode: MirrorMode) -> Self {
        match mode {
            MirrorMode::SameAlliance => ChoreoSWaypoint {
                y: reflected_spec(field_y_spec(), self.y),
                heading: negated_spec(self.heading),
                ..self
            },
            MirrorMode::OppositeAlliance => ChoreoSWaypoint {
                x: reflected_spec(field_x_spec(), self.x),
                heading: negated_spec(self.heading),
                ..self
            },
        }
    }

    pub fn flip_same_alliance(&mut self)
        requires
            old(self).fits(MirrorMode::SameAlliance),
        ensures
            *final(self) == old(self).mirrored(MirrorMode::SameAlliance),
    {
        self.y = flip_xaxis(self.x, self.y)[1];
        self.heading = self.heading.negated();
    }

    pub fn flip_alliance(&mut self)
        requires
            old(self).fits(MirrorMode::OppositeAlliance),
        ensures
            *final(self) == old(self).mirrored(MirrorMode::OppositeAlliance),
    {
        self.x = flip_yaxis(self.x, self.y)[0];
        self.heading = self.heading.negated();
    }

    pub fn flip(&mut self, mode: MirrorMode)
        requires
            old(self).fits(mode),
        ensures
            *final(self) == old(self).mirrored(mode),
    {
        match mode {
            MirrorMode::SameAlliance => self.flip_same_alliance(),
            MirrorMode::OppositeAlliance => self.flip_alliance(),
        }
    }
}

/// A waypoint of the parameters: each number carries its units.
pub struct ChoreoWaypoint {
    pub x: ChoreoValue,
    pub y: ChoreoValue,
    pub heading: ChoreoValue,
    pub intervals: i32,
    pub split: bool,
    pub fix_translation: bool,
    pub fix_heading: bool,
    pub override_intervals: bool,
}

/// `new` holds `val`, with its display string regenerated in `unit`.
pub open spec fn regenerated(new: ChoreoValue, val: Decimal, unit: Seq<char>) -> bool {
    new.val == val && new.exp@ == exp_text(val, unit)
}

impl ChoreoWaypoint {
    pub open spec fn fits(self, mode: MirrorMode) -> bool {
        coordinate_fits(self.x.val, self.y.val, mode)
    }

    /// `self` is `old` mirrored by `mode`: the reflected coordinate and the
    /// negated heading hold their new values and regenerated display strings
    /// (`m` for a length, `rad` for an angle); the rest is unchanged.
    pub open spec fn mirrored_from(self, old: Self, mode: MirrorMode) -> bool {
        &&& regenerated(self.heading, negated_spec(old.heading.val), "rad"@)
        &&& self.intervals == old.intervals
        &&& self.split == old.split
        &&& self.fix_translation == old.fix_translation
        &&& self.fix_heading == old.fix_heading
        &&& self.override_intervals == old.override_intervals
        &&& match mode {
            MirrorMode::SameAlliance => {
                &&& self.x == old.x
                &&& regenerated(self.y, reflected_spec(field_y_spec(), old.y.val), "m"@)
            },
            MirrorMode::OppositeAlliance => {
                &&& self.y == old.y
                &&& regenerated(self.x, reflected_spec(field_x_spec(), old.x.val), "m"@)
            },
        }
    }

    pub fn flip_same_alliance(&mut self)
        requires
            old(self).fits(MirrorMode::SameAlliance),
        ensures
            final(self).mirrored_from(*old(self), MirrorMode::SameAlliance),
    {
        self.y.val = flip_xaxis(self.x.val, self.y.val)[1];
        self.y.update_exp("m");
        self.heading.val = self.heading.val.negated();
        self.heading.update_exp("rad");
    }

    pub fn flip_alliance(&mut self)
        requires
            old(self).fits(MirrorMode::OppositeAlliance),
        ensures
            final(self).mirrored_from(*old(self), MirrorMode::OppositeAlliance),
    {
        self.x.val = flip_yaxis(self.x.val, self.y.val)[0];
        self.x.update_exp("m");
        self.heading.val = self.heading.val.negated();
        self.heading.update_exp("rad");
    }

    pub fn flip(&mut self, mode: MirrorMode)
        requires
            old(self).fits(mode),
        ensures
            final(self).mirrored_from(*old(self), mode),
    {
        match mode {
            MirrorMode::SameAlliance => self.flip_same_alliance(),
            MirrorMode::OppositeAlliance => self.flip_alliance(),
        }
    }
}

/// One time-stamped point of the solved trajectory.
pub struct ChoreoSample {
    pub t: Decimal,
    pub x: Decimal,
    pub y: Decimal,
    pub heading: Decimal,
    pub vx: Decimal,
    pub vy: Decimal,
    pub omega: Decimal,
    pub ax: Decimal,
    pub ay: Decimal,
    pub alpha: Decimal,
    pub fx: Vec<Decimal>,
    pub fy: Vec<Decimal>,
}

impl ChoreoSample {
    pub open spec fn fits(self, mode: MirrorMode) -> bool {
        coordinate_fits(self.x, self.y, mode)
    }

    /// The sample mirrored by `mode`: the reflected coordinate, and the
    /// velocity and acceleration across that axis, the heading, the angular
    /// velocity and the angular acceleration negated. The module forces are
    /// kept as they are.
    pub open spec fn mirrored(self, mode: MirrorMode) -> Self {
        match mode {
            MirrorMode::SameAlliance => ChoreoSample {
                y: reflected_spec(field_y_spec(), self.y),
                vy: negated_spec(self.vy),
                ay: negated_spec(self.ay),
                heading: negated_spec(self.heading),
                omega: negated_spec(self.omega),
                alpha: negated_spec(self.alpha),
                ..self
            },
            MirrorMode::OppositeAlliance => ChoreoSample {
                x: reflected_spec(field_x_spec(), self.x),
                vx: negated_spec(self.vx),
                ax: negated_spec(self.ax),
                heading: negated_spec(self.heading),
                omega: negated_spec(self.omega),
                alpha: negated_spec(self.alpha),
                ..self
            },
        }
    }

    pub fn flip_same_alliance(&mut self)
        requires
            old(self).fits(MirrorMode::SameAlliance),
        ensures
            *final(self) == old(self).mirrored(MirrorMode::SameAlliance),
    {
        self.y = flip_xaxis(self.x, self.y)[1];
        self.vy = self.vy.negated();
        self.ay = self.ay.negated();
        self.heading = self.heading.negated();
        self.omega = self.omega.negated();
        self.alpha = self.alpha.negated();
    }

    pub fn flip_alliance(&mut self)
        requires
            old(self).fits(MirrorMode::OppositeAlliance),
        ensures
            *final(self) == old(self).mirrored(MirrorMode::OppositeAlliance),
    {
        self.x = flip_yaxis(self.x, self.y)[0];
        self.vx = self.vx.negated();
        self.ax = self.ax.negated();
        self.heading = self.heading.negated();
        self.omega = self.omega.negated();
        self.alpha = self.alpha.negated();
    }

    pub fn flip(&mut self, mode: MirrorMode)
        requires
            old(self).fits(mode),
        ensures
            *final(self) == old(self).mirrored(mode),
    {
        match mode {
            MirrorMode::SameAlliance => self.flip_same_alliance(),
            MirrorMode::OppositeAlliance => self.flip_alliance(),
        }
    }
}

/// A constraint's reference to a waypoint: by name or by index.
pub enum ChoreoWaypointName {
    String(String),
    Int(i32),
}

/// A constraint's kind and its free-form properties.
pub struct ChoreoConstraintData {
    pub kind: String,
    pub props: JsonValue,
}

pub struct ChoreoConstraint {
    pub from: Option<ChoreoWaypointName>,
    pub to: Option<ChoreoWaypointName>,
    pub data: ChoreoConstraintData,
    pub enabled: bool,
}

pub struct ChoreoSnapshotData {
    pub waypoints: Vec<ChoreoSWaypoint>,
    pub constraints: Vec<ChoreoConstraint>,
    pub target_dt: Decimal,
}

pub struct ChoreoParams {
    pub waypoints: Vec<ChoreoWaypoint>,
    pub constraints: Vec<ChoreoConstraint>,
    pub target_dt: ChoreoValue,
}

pub struct ChoreoTraj {
    pub sample_type: Option<String>,
    pub waypoints: Vec<Decimal>,
    pub samples: Vec<ChoreoSample>,
    pub splits: Vec<i32>,
}

/// A trajectory document.
pub struct ChoreoData {
    pub name: String,
    pub version: i32,
    pub snapshot: ChoreoSnapshotData,
    pub params: ChoreoParams,
    pub trajectory: ChoreoTraj,
    pub events: JsonValue,
}

/// Why a document could not be mirrored.
#[derive(Clone, Copy, Debug, PartialEq, Eq, Structural)]
pub enum MirrorError {
    /// A coordinate's reflection needs more than 128 bits of digits.
    CoordinateOutOfRange,
}

impl ChoreoData {
    /// Every coordinate that `mode` reflects can be reflected exactly.
    pub open spec fn fits(self, mode: MirrorMode) -> bool {
        &&& forall|i: int|
            0 <= i < self.snapshot.waypoints@.len() ==> #[trigger] self.snapshot.waypoints@[i].fits(
                mode,
            )
        &&& forall|i: int|
            0 <= i < self.params.waypoints@.len() ==> #[trigger] self.params.waypoints@[i].fits(
                mode,
            )
        &&& forall|i: int|
            0 <= i < self.trajectory.samples@.len() ==> #[trigger] self.trajectory.samples@[i].fits(
                mode,
            )
    }

    /// `self` is `old` with every snapshot waypoint, parameter waypoint and
    /// sample mirrored by `mode`, in the same order, and nothing else changed.
    pub open spec fn mirrored_from(self, old: Self, mode: MirrorMode) -> bool {
        &&& self.name == old.name
        &&& self.version == old.version
        &&& self.events == old.events
        &&& self.snapshot.constraints == old.snapshot.constraints
        &&& self.snapshot.target_dt == old.snapshot.target_dt
        &&& self.params.constraints == old.params.constraints
        &&& self.params.target_dt == old.params.target_dt
        &&& self.trajectory.sample_type == old.trajectory.sample_type
        &&& self.trajectory.waypoints == old.trajectory.waypoints
        &&& self.trajectory.splits == old.trajectory.splits
        &&& self.snapshot.waypoints@.len() == old.snapshot.waypoints@.len()
        &&& forall|i: int|
            0 <= i < self.snapshot.waypoints@.len() ==> #[trigger] self.snapshot.waypoints@[i]
                == old.snapshot.waypoints@[i].mirrored(mode)
        &&& self.params.waypoints@.len() == old.params.waypoints@.len()
        &&& forall|i: int|
            0 <= i < self.params.waypoints@.len() ==> #[trigger] self.params.waypoints@[i].mirrored_from(
                old.params.waypoints@[i],
                mode,
            )
        &&& self.trajectory.samples@.len() == old.trajectory.samples@.len()
        &&& forall|i: int|
            0 <= i < self.trajectory.samples@.len() ==> #[trigger] self.trajectory.samples@[i]
                == old.trajectory.samples@[i].mirrored(mode)
    }

    /// Mirrors every coordinate-bearing part of the document by `mode`.
    pub fn mirror(&mut self, mode: MirrorMode)
        requires
            old(self).fits(mode),
        ensures
            final(self).mirrored_from(*old(self), mode),
    {
        mirror_swaypoints(&mut self.snapshot.waypoints, mode);
        mirror_waypoints(&mut self.params.waypoints, mode);
        mirror_samples(&mut self.trajectory.samples, mode);
    }

    /// Whether `mirror` can be applied with `mode`.
    pub fn can_mirror(&self, mode: MirrorMode) -> (r: bool)
        ensures
            r == self.fits(mode),
    {
        let mut i: usize = 0;
        while i < self.snapshot.waypoints.len()
            invariant
                forall|j: int| 0 <= j < i ==> #[trigger] self.snapshot.waypoints@[j].fits(mode),
            decreases self.snapshot.waypoints@.len() - i,
        {
            let w = &self.snapshot.waypoints[i];
            if !coordinate_fits_exec(w.x, w.y, mode) {
                assert(!self.snapshot.waypoints@[i as int].fits(mode));
                return false;
            }
            i = i + 1;
        }
        let mut i: usize = 0;
        while i < self.params.waypoints.len()
            invariant
                forall|j: int| 0 <= j < i ==> #[trigger] self.params.waypoints@[j].fits(mode),
            decreases self.params.waypoints@.len() - i,
        {
            let w = &self.params.waypoints[i];
            if !coordinate_fits_exec(w.x.val, w.y.val, mode) {
                assert(!self.params.waypoints@[i as int].fits(mode));
                return false;
            }
            i = i + 1;
        }
        let mut i: usize = 0;
        while i < self.trajectory.samples.len()
            invariant
                forall|j: int| 0 <= j < i ==> #[trigger] self.trajectory.samples@[j].fits(mode),
            decreases self.trajectory.samples@.len() - i,
        {
            let w = &self.trajectory.samples[i];
            if !coordinate_fits_exec(w.x, w.y, mode) {
                assert(!self.trajectory.samples@[i as int].fits(mode));
                return false;
            }
            i = i + 1;
        }
        true
    }
}

fn coordinate_fits_exec(x: Decimal, y: Decimal, mode: MirrorMode) -> (r: bool)
    ensures
        r == coordinate_fits(x, y, mode),
{
    match mode {
        MirrorMode::SameAlliance => reflect(field_y(), y).is_some(),
        MirrorMode::OppositeAlliance => reflect(field_x(), x).is_some(),
    }
}

fn mirror_swaypoints(v: &mut Vec<ChoreoSWaypoint>, mode: MirrorMode)
    requires
        forall|i: int| 0 <= i < old(v)@.len() ==> #[trigger] old(v)@[i].fits(mode),
    ensures
        final(v)@.len() == old(v)@.len(),
        forall|i: int| 0 <= i < final(v)@.len() ==> #[trigger] final(v)@[i] == old(v)@[i].mirrored(mode),
{
    let ghost v0 = v@;
    let mut i: usize = 0;
    while i < v.len()
        invariant
            v@.len() == v0.len(),
            forall|j: int| 0 <= j < v0.len() ==> #[trigger] v0[j].fits(mode),
            forall|j: int| 0 <= j < i ==> #[trigger] v@[j] == v0[j].mirrored(mode),
            forall|j: int| i <= j < v0.len() ==> #[trigger] v@[j] == v0[j],
        decreases v0.len() - i,
    {
        v[i].flip(mode);
        i = i + 1;
    }
}

fn mirror_waypoints(v: &mut Vec<ChoreoWaypoint>, mode: MirrorMode)
    requires
        forall|i: int| 0 <= i < old(v)@.len() ==> #[trigger] old(v)@[i].fits(mode),
    ensures
        final(v)@.len() == old(v)@.len(),
        forall|i: int|
            0 <= i < final(v)@.len() ==> #[trigger] final(v)@[i].mirrored_from(old(v)@[i], mode),
{
    let ghost v0 = v@;
    let mut i: usize = 0;
    while i < v.len()
        invariant
            v@.len() == v0.len(),
            forall|j: int| 0 <= j < v0.len() ==> #[trigger] v0[j].fits(mode),
            forall|j: int| 0 <= j < i ==> #[trigger] v@[j].mirrored_from(v0[j], mode),
            forall|j: int| i <= j < v0.len() ==> #[trigger] v@[j] == v0[j],
        decreases v0.len() - i,
    {
        v[i].flip(mode);
        i = i + 1;
    }
}

fn mirror_samples(v: &mut Vec<ChoreoSample>, mode: MirrorMode)
    requires
        forall|i: int| 0 <= i < old(v)@.len() ==> #[trigger] old(v)@[i].fits(mode),
    ensures
        final(v)@.len() == old(v)@.len(),
        forall|i: int| 0 <= i < final(v)@.len() ==> #[trigger] final(v)@[i] == old(v)@[i].mirrored(mode),
{
    let ghost v0 = v@;
    let mut i: usize = 0;
    while i < v.len()
        invariant
            v@.len() == v0.len(),
            forall|j: int| 0 <= j < v0.len() ==> #[trigger] v0[j].fits(mode),
            forall|j: int| 0 <= j < i ==> #[trigger] v@[j] == v0[j].mirrored(mode),
            forall|j: int| i <= j < v0.len() ==> #[trigger] v@[j] == v0[j],
        decreases v0.len() - i,
    {
        v[i].flip(mode);
        i = i + 1;
    }
}

/// Two snapshot waypoints agree up to the representation of their numbers.
pub open spec fn swaypoint_same(a: ChoreoSWaypoint, b: ChoreoSWaypoint) -> bool {
    &&& same_value(a.x, b.x)
    &&& same_value(a.y, b.y)
    &&& same_value(a.heading, b.heading)
    &&& a.intervals == b.intervals
    &&& a.split == b.split
    &&& a.fix_translation == b.fix_translation
    &&& a.fix_heading == b.fix_heading
    &&& a.override_intervals == b.override_intervals
}

/// Two parameter waypoints agree in their numbers and flags.
pub open spec fn waypoint_same(a: ChoreoWaypoint, b: ChoreoWaypoint) -> bool {
    &&& same_value(a.x.val, b.x.val)
    &&& same_value(a.y.val, b.y.val)
    &&& same_value(a.heading.val, b.heading.val)
    &&& a.intervals == b.intervals
    &&& a.split == b.split
    &&& a.fix_translation == b.fix_translation
    &&& a.fix_heading == b.fix_heading
    &&& a.override_intervals == b.override_intervals
}

/// Two samples agree up to the representation of their numbers.
pub open spec fn sample_same(a: ChoreoSample, b: ChoreoSample) -> bool {
    &&& a.t == b.t
    &&& same_value(a.x, b.x)
    &&& same_value(a.y, b.y)
    &&& same_value(a.heading, b.heading)
    &&& same_value(a.vx, b.vx)
    &&& same_value(a.vy, b.vy)
    &&& same_value(a.omega, b.omega)
    &&& same_value(a.ax, b.ax)
    &&& same_value(a.ay, b.ay)
    &&& same_value(a.alpha, b.alpha)
    &&& a.fx == b.fx
    &&& a.fy == b.fy
}

/// Two documents describe the same path: every waypoint and sample agrees in
/// its values, and every other part is equal.
pub open spec fn same_path(a: ChoreoData, b: ChoreoData) -> bool {
    &&& a.name == b.name
    &&& a.version == b.version
    &&& a.events == b.events
    &&& a.snapshot.constraints == b.snapshot.constraints
    &&& a.snapshot.target_dt == b.snapshot.target_dt
    &&& a.params.constraints == b.params.constraints
    &&& a.params.target_dt == b.params.target_dt
    &&& a.trajectory.sample_type == b.trajectory.sample_type
    &&& a.trajectory.waypoints == b.trajectory.waypoints
    &&& a.trajectory.splits == b.trajectory.splits
    &&& a.snapshot.waypoints@.len() == b.snapshot.waypoints@.len()
    &&& forall|i: int|
        0 <= i < a.snapshot.waypoints@.len() ==> #[trigger] swaypoint_same(
            a.snapshot.waypoints@[i],
            b.snapshot.waypoints@[i],
        )
    &&& a.params.waypoints@.len() == b.params.waypoints@.len()
    &&& forall|i: int|
        0 <= i < a.params.waypoints@.len() ==> #[trigger] waypoint_same(
            a.params.waypoints@[i],
            b.params.waypoints@[i],
        )
    &&& a.trajectory.samples@.len() == b.trajectory.samples@.len()
    &&& forall|i: int|
        0 <= i < a.trajectory.samples@.len() ==> #[trigger] sample_same(
            a.trajectory.samples@[i],
            b.trajectory.samples@[i],
        )
}

proof fn lemma_same_value_refl(d: Decimal)
    ensures
        same_value(d, d),
{
}

proof fn lemma_negated_twice(d: Decimal)
    ensures
        same_value(negated_spec(negated_spec(d)), d),
{
    let p = crate::number::pow10(d.scale as nat);
    if d.magnitude == 0 {
        assert(negated_spec(negated_spec(d)).signed() == 0);
        assert(d.signed() == 0);
        assert(0 * p == 0);
    }
}

proof fn lemma_coordinate_twice(x: Decimal, y: Decimal, mode: MirrorMode)
    requires
        coordinate_fits(x, y, mode),
    ensures
        mode == MirrorMode::SameAlliance ==> reflect_fits(
            field_y_spec(),
            reflected_spec(field_y_spec(), y),
        ) && same_value(reflected_spec(field_y_spec(), reflected_spec(field_y_spec(), y)), y),
        mode == MirrorMode::OppositeAlliance ==> reflect_fits(
            field_x_spec(),
            reflected_spec(field_x_spec(), x),
        ) && same_value(reflected_spec(field_x_spec(), reflected_spec(field_x_spec(), x)), x),
{
    match mode {
        MirrorMode::SameAlliance => lemma_reflect_twice(field_y_spec(), y),
        MirrorMode::OppositeAlliance => lemma_reflect_twice(field_x_spec(), x),
    }
}

proof fn lemma_swaypoint_twice(w: ChoreoSWaypoint, mode: MirrorMode)
    requires
        w.fits(mode),
    ensures
        w.mirrored(mode).fits(mode),
        swaypoint_same(w.mirrored(mode).mirrored(mode), w),
{
    lemma_coordinate_twice(w.x, w.y, mode);
    lemma_negated_twice(w.heading);
    lemma_same_value_refl(w.x);
    lemma_same_value_refl(w.y);
}

proof fn lemma_waypoint_twice(w0: ChoreoWaypoint, w1: ChoreoWaypoint, w2: ChoreoWaypoint, mode: MirrorMode)
    requires
        w0.fits(mode),
        w1.mirrored_from(w0, mode),
        w2.mirrored_from(w1, mode),
    ensures
        w1.fits(mode),
        waypoint_same(w2, w0),
{
    lemma_coordinate_twice(w0.x.val, w0.y.val, mode);
    lemma_negated_twice(w0.heading.val);
    lemma_same_value_refl(w0.x.val);
    lemma_same_value_refl(w0.y.val);
}

proof fn lemma_sample_twice(s: ChoreoSample, mode: MirrorMode)
    requires
        s.fits(mode),
    ensures
        s.mirrored(mode).fits(mode),
        sample_same(s.mirrored(mode).mirrored(mode), s),
{
    lemma_coordinate_twice(s.x, s.y, mode);
    lemma_negated_twice(s.heading);
    lemma_negated_twice(s.vx);
    lemma_negated_twice(s.vy);
    lemma_negated_twice(s.omega);
    lemma_negated_twice(s.ax);
    lemma_negated_twice(s.ay);
    lemma_negated_twice(s.alpha);
    lemma_same_value_refl(s.x);
    lemma_same_value_refl(s.y);
    lemma_same_value_refl(s.vx);
    lemma_same_value_refl(s.vy);
    lemma_same_value_refl(s.ax);
    lemma_same_value_refl(s.ay);
}

/// Mirroring a document twice with the same mode gives back the same path:
/// the second mirror can always be applied, and every number comes back to
/// its value.
pub proof fn lemma_mirror_twice(d0: ChoreoData, d1: ChoreoData, d2: ChoreoData, mode: MirrorMode)
    requires
        d0.fits(mode),
        d1.mirrored_from(d0, mode),
        d2.mirrored_from(d1, mode),
    ensures
        d1.fits(mode),
        same_path(d2, d0),
{
    assert forall|i: int| 0 <= i < d1.snapshot.waypoints@.len() implies #[trigger] swaypoint_same(
        d2.snapshot.waypoints@[i],
        d0.snapshot.waypoints@[i],
    ) && d1.snapshot.waypoints@[i].fits(mode) by {
        assert(d0.snapshot.waypoints@[i].fits(mode));
        lemma_swaypoint_twice(d0.snapshot.waypoints@[i], mode);
    }
    assert forall|i: int| 0 <= i < d1.snapshot.waypoints@.len() implies #[trigger] d1.snapshot.waypoints@[i].fits(
        mode,
    ) by {
        assert(swaypoint_same(d2.snapshot.waypoints@[i], d0.snapshot.waypoints@[i]));
    }
    assert forall|i: int| 0 <= i < d1.params.waypoints@.len() implies #[trigger] waypoint_same(
        d2.params.waypoints@[i],
        d0.params.waypoints@[i],
    ) && d1.params.waypoints@[i].fits(mode) by {
        assert(d0.params.waypoints@[i].fits(mode));
        assert(d1.params.waypoints@[i].mirrored_from(d0.params.waypoints@[i], mode));
        assert(d2.params.waypoints@[i].mirrored_from(d1.params.waypoints@[i], mode));
        lemma_waypoint_twice(
            d0.params.waypoints@[i],
            d1.params.waypoints@[i],
            d2.params.waypoints@[i],
            mode,
        );
    }
    assert forall|i: int| 0 <= i < d1.params.waypoints@.len() implies #[trigger] d1.params.waypoints@[i].fits(
        mode,
    ) by {
        assert(waypoint_same(d2.params.waypoints@[i], d0.params.waypoints@[i]));
    }
    assert forall|i: int| 0 <= i < d1.trajectory.samples@.len() implies #[trigger] sample_same(
        d2.trajectory.samples@[i],
        d0.trajectory.samples@[i],
    ) && d1.trajectory.samples@[i].fits(mode) by {
        assert(d0.trajectory.samples@[i].fits(mode));
        lemma_sample_twice(d0.trajectory.samples@[i], mode);
    }
    assert forall|i: int| 0 <= i < d1.trajectory.samples@.len() implies #[trigger] d1.trajectory.samples@[i].fits(
        mode,
    ) by {
        assert(sample_same(d2.trajectory.samples@[i], d0.trajectory.samples@[i]));
    }
}

/// Mirrors the document by `mode` and gives it the name `name`; fails, with
/// the document untouched, when a reflected coordinate would not fit.
pub fn flip_document(doc: ChoreoData, mode: MirrorMode, name: String) -> (r: Result<
    ChoreoData,
    MirrorError,
>)
    ensures
        r is Err <==> !doc.fits(mode),
        r matches Ok(d) ==> d.name == name && d.mirrored_from(
            ChoreoData { name: name, ..doc },
            mode,
        ),
{
    if !doc.can_mirror(mode) {
        return Err(MirrorError::CoordinateOutOfRange);
    }
    let mut d = doc;
    d.name = name;
    d.mirror(mode);
    Ok(d)
}

} // verus!
