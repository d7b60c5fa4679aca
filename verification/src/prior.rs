//! Priors over the model's parameters: the kinds of distribution, the
//! distribution pinned to one value, the six named slots of a prior set and
//! the parameter record that one draw from every slot gives.
//!
//! The library is generic over the type `F` of real numbers and over the
//! type `D` of distributions: it decides which slot holds what and in which
//! order slots are sampled, and leaves the arithmetic on reals to the caller.

use vstd::prelude::*;
use crate::error::ParseError;

verus! {

/// The kinds of distribution that a prior can be.
#[derive(Debug, Clone, Copy, PartialEq, Eq, Structural)]
pub enum PriorKind {
    Uniform,
    Gamma,
    Lognormal,
    Poisson,
    Fixed,
}

impl PriorKind {
    /// The kind that `name` stands for, if any.
    pub open spec fn named(name: Seq<char>) -> Option<PriorKind> {
        if name == "uniform"@ {
            Some(PriorKind::Uniform)
        } else if name == "gamma"@ {
            Some(PriorKind::Gamma)
        } else if name == "lognormal"@ {
            Some(PriorKind::Lognormal)
        } else if name == "poisson"@ {
            Some(PriorKind::Poisson)
        } else if name == "fixed"@ {
            Some(PriorKind::Fixed)
        } else {
            None
        }
    }

    /// Reads the name of a kind of distribution. Any other text is
    /// rejected, and the error carries it.
    pub fn from_name(name: &str) -> (kind: Result<PriorKind, ParseError>)
        ensures
            match kind {
                Ok(k) => PriorKind::named(name@) == Some(k),
                Err(ParseError::BadPriorString(text)) => PriorKind::named(name@).is_none() && text@
                    == name@,
            },
    {
        let given: String = name.to_owned();
        if given == "uniform".to_owned() {
            Ok(PriorKind::Uniform)
        } else if given == "gamma".to_owned() {
            Ok(PriorKind::Gamma)
        } else if given == "lognormal".to_owned() {
            Ok(PriorKind::Lognormal)
        } else if given == "poisson".to_owned() {
            Ok(PriorKind::Poisson)
        } else if given == "fixed".to_owned() {
            Ok(PriorKind::Fixed)
        } else {
            Err(ParseError::BadPriorString(given))
        }
    }
}

impl PriorKind {
    /// The names of the numeric fields that describe a distribution of this
    /// kind, in the order in which the distribution takes them.
    pub open spec fn field_names(self) -> Seq<Seq<char>> {
        match self {
            PriorKind::Uniform => seq!["lower"@, "upper"@],
            PriorKind::Gamma => seq!["shape"@, "scale"@],
            PriorKind::Lognormal => seq!["mu"@, "sigma"@],
            PriorKind::Poisson => seq!["lambda"@],
            PriorKind::Fixed => seq!["value"@],
        }
    }

    /// The names of the numeric fields that a specification of this kind
    /// of distribution has to give.
    pub fn parameters(&self) -> (names: Vec<&'static str>)
        ensures
            names@.len() == self.field_names().len(),
            forall|i: int| 0 <= i < names@.len() ==> (#[trigger] names@[i])@ == self.field_names()[i],
    {
        match self {
            PriorKind::Uniform => vec!["lower", "upper"],
            PriorKind::Gamma => vec!["shape", "scale"],
            PriorKind::Lognormal => vec!["mu", "sigma"],
            PriorKind::Poisson => vec!["lambda"],
            PriorKind::Fixed => vec!["value"],
        }
    }
}

/// The distribution that always gives one and the same value.
#[derive(Debug)]
pub struct Fixed<T: Copy> {
    value: T,
}

impl<T: Copy> Fixed<T> {
    /// The value that every sample gives.
    pub closed spec fn value(&self) -> T {
        self.value
    }

    /// The distribution pinned to `value`. Every value is accepted.
    pub fn new(value: T) -> (fixed: Result<Self, ParseError>)
        ensures
            fixed is Ok,
            fixed->Ok_0.value() == value,
    {
        Ok(Fixed { value })
    }

    /// A sample: always the pinned value. The randomness source is left as
    /// it was.
    pub fn sample<R>(&self, r: &mut R) -> (value: T)
        ensures
            value == self.value(),
            *final(r) == *old(r),
    {
        self.value
    }
}

/// One value for each parameter of the model.
#[derive(Debug)]
pub struct Param<F> {
    /// Reproduction number.
    pub r0: F,
    /// Shape of the generation-interval distribution.
    pub gt_shape: F,
    /// Scale of the generation-interval distribution.
    pub gt_scale: F,
    /// Mean of the reporting-delay distribution.
    pub del_mean: F,
    /// Standard deviation of the reporting-delay distribution.
    pub del_sd: F,
    /// Initial number of cases.
    pub i0: F,
}

/// The name of each parameter of the model, as a prior specification
/// writes it.
pub fn slot_names() -> (names: Param<&'static str>)
    ensures
        names.r0@ == "r0"@,
        names.gt_shape@ == "gt_shape"@,
        names.gt_scale@ == "gt_scale"@,
        names.del_mean@ == "del_mean"@,
        names.del_sd@ == "del_sd"@,
        names.i0@ == "i0"@,
{
    Param {
        r0: "r0",
        gt_shape: "gt_shape",
        gt_scale: "gt_scale",
        del_mean: "del_mean",
        del_sd: "del_sd",
        i0: "i0",
    }
}

/// A prior set: one distribution for each parameter of the model.
#[derive(Debug)]
pub struct Priors<D> {
    r0: D,
    gt_shape: D,
    gt_scale: D,
    del_mean: D,
    del_sd: D,
    i0: D,
}

impl<D> Priors<D> {
    /// The six distributions, slot by slot.
    pub closed spec fn slots(&self) -> Param<D> {
        Param {
            r0: self.r0,
            gt_shape: self.gt_shape,
            gt_scale: self.gt_scale,
            del_mean: self.del_mean,
            del_sd: self.del_sd,
            i0: self.i0,
        }
    }

    /// The prior set in which each slot holds the distribution that `given`
    /// supplies for it, or else the one that `defaults` holds for it.
    pub fn build(given: Param<Option<D>>, defaults: Param<D>) -> (priors: Self)
        ensures
            priors.slots().r0 == given.r0.unwrap_or(defaults.r0),
            priors.slots().gt_shape == given.gt_shape.unwrap_or(defaults.gt_shape),
            priors.slots().gt_scale == given.gt_scale.unwrap_or(defaults.gt_scale),
            priors.slots().del_mean == given.del_mean.unwrap_or(defaults.del_mean),
            priors.slots().del_sd == given.del_sd.unwrap_or(defaults.del_sd),
            priors.slots().i0 == given.i0.unwrap_or(defaults.i0),
    {
        Priors {
            r0: given.r0.unwrap_or(defaults.r0),
            gt_shape: given.gt_shape.unwrap_or(defaults.gt_shape),
            gt_scale: given.gt_scale.unwrap_or(defaults.gt_scale),
            del_mean: given.del_mean.unwrap_or(defaults.del_mean),
            del_sd: given.del_sd.unwrap_or(defaults.del_sd),
            i0: given.i0.unwrap_or(defaults.i0),
        }
    }

    /// One parameter set: `draw` samples every slot once with the same
    /// randomness source, in the order reproduction number, shape and scale
    /// of the generation interval, mean and standard deviation of the
    /// reporting delay, initial cases. Each draw finds the source as the
    /// draw before it left it.
    pub fn sample<R, F, S: Fn(&D, &mut R) -> F>(&self, r: &mut R, draw: &S) -> (pars: Param<F>)
        requires
            forall|dist: &D, g: &mut R| #[trigger] draw.requires((dist, g)),
        ensures
            exists|g1: &mut R, g2: &mut R, g3: &mut R, g4: &mut R, g5: &mut R, g6: &mut R|
                *g1 == *old(r) && *g2 == *final(g1) && *g3 == *final(g2) && *g4 == *final(g3) && *g5
                    == *final(g4) && *g6 == *final(g5) && *final(r) == *final(g6)
                    && #[trigger] draw.ensures((&self.slots().r0, g1), pars.r0)
                    && #[trigger] draw.ensures((&self.slots().gt_shape, g2), pars.gt_shape)
                    && #[trigger] draw.ensures((&self.slots().gt_scale, g3), pars.gt_scale)
                    && #[trigger] draw.ensures((&self.slots().del_mean, g4), pars.del_mean)
                    && #[trigger] draw.ensures((&self.slots().del_sd, g5), pars.del_sd)
                    && #[trigger] draw.ensures((&self.slots().i0, g6), pars.i0),
    {
        let ghost s0 = *r;
        let r0: F = draw(&self.r0, r);
        let ghost s1 = *r;
        assert(exists|g: &mut R| *g == s0 && *final(g) == s1 && #[trigger] draw.ensures((&self.r0, g), r0));
        let gt_shape: F = draw(&self.gt_shape, r);
        let ghost s2 = *r;
        assert(exists|g: &mut R|
            *g == s1 && *final(g) == s2 && #[trigger] draw.ensures((&self.gt_shape, g), gt_shape));
        let gt_scale: F = draw(&self.gt_scale, r);
        let ghost s3 = *r;
        assert(exists|g: &mut R|
            *g == s2 && *final(g) == s3 && #[trigger] draw.ensures((&self.gt_scale, g), gt_scale));
        let del_mean: F = draw(&self.del_mean, r);
        let ghost s4 = *r;
        assert(exists|g: &mut R|
            *g == s3 && *final(g) == s4 && #[trigger] draw.ensures((&self.del_mean, g), del_mean));
        let del_sd: F = draw(&self.del_sd, r);
        let ghost s5 = *r;
        assert(exists|g: &mut R| *g == s4 && *final(g) == s5 && #[trigger] draw.ensures((&self.del_sd, g), del_sd));
        let i0: F = draw(&self.i0, r);
        let ghost s6 = *r;
        assert(exists|g: &mut R| *g == s5 && *final(g) == s6 && #[trigger] draw.ensures((&self.i0, g), i0));
        let pars = Param { r0, gt_shape, gt_scale, del_mean, del_sd, i0 };
        proof {
            let g1 = choose|g: &mut R| *g == s0 && *final(g) == s1 && #[trigger] draw.ensures((&self.r0, g), r0);
            let g2 = choose|g: &mut R|
                *g == s1 && *final(g) == s2 && #[trigger] draw.ensures((&self.gt_shape, g), gt_shape);
            let g3 = choose|g: &mut R|
                *g == s2 && *final(g) == s3 && #[trigger] draw.ensures((&self.gt_scale, g), gt_scale);
            let g4 = choose|g: &mut R|
                *g == s3 && *final(g) == s4 && #[trigger] draw.ensures((&self.del_mean, g), del_mean);
            let g5 = choose|g: &mut R|
                *g == s4 && *final(g) == s5 && #[trigger] draw.ensures((&self.del_sd, g), del_sd);
            let g6 = choose|g: &mut R| *g == s5 && *final(g) == s6 && #[trigger] draw.ensures((&self.i0, g), i0);
            assert(draw.ensures((&self.slots().r0, g1), pars.r0) && draw.ensures(
                (&self.slots().gt_shape, g2),
                pars.gt_shape,
            ) && draw.ensures((&self.slots().gt_scale, g3), pars.gt_scale) && draw.ensures(
                (&self.slots().del_mean, g4),
                pars.del_mean,
            ) && draw.ensures((&self.slots().del_sd, g5), pars.del_sd) && draw.ensures(
                (&self.slots().i0, g6),
                pars.i0,
            ));
        }
        pars
    }
}

impl<T: Copy> Priors<Fixed<T>> {
    /// One parameter set of a prior set that pins every slot: each
    /// parameter is the value of its slot, and the randomness source is
    /// left as it was.
    pub fn sample_pinned<R>(&self, r: &mut R) -> (pars: Param<T>)
        ensures
            pars.r0 == self.slots().r0.value(),
            pars.gt_shape == self.slots().gt_shape.value(),
            pars.gt_scale == self.slots().gt_scale.value(),
            pars.del_mean == self.slots().del_mean.value(),
            pars.del_sd == self.slots().del_sd.value(),
            pars.i0 == self.slots().i0.value(),
            *final(r) == *old(r),
    {
        let draw = |dist: &Fixed<T>, g: &mut R| -> (value: T)
            ensures
                value == dist.value(),
                *final(g) == *old(g),
            { dist.sample(g) };
        self.sample(r, &draw)
    }
}

} // verus!
