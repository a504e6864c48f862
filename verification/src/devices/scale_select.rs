use vstd::prelude::*;

use crate::config::{PerfectQuality, Quality, ScaleDegree};
use crate::devices::held_stack::{index_set_insert, index_set_items, index_set_last, index_set_new, index_set_shift_remove};
use crate::output_value::OutputValue;

verus! {

/// The qualities of the scale's degrees that toggles can change.
#[derive(Debug, Copy, Clone, PartialEq, Eq, Structural)]
pub struct DegreeQualities {
    pub second: Quality,
    pub third: Quality,
    pub fourth: PerfectQuality,
    pub fifth: PerfectQuality,
    pub sixth: Quality,
    pub seventh: Quality,
}

/// Trigger 0 keeps a degree major, any other trigger makes it minor.
pub open spec fn quality_for(id: u32) -> Quality {
    if id == 0 { Quality::Major } else { Quality::Minor }
}

/// Trigger 0 keeps a perfect degree perfect, any other trigger augments it.
pub open spec fn augmented_for(id: u32) -> PerfectQuality {
    if id == 0 { PerfectQuality::Perfect } else { PerfectQuality::Augmented }
}

/// Trigger 0 keeps a perfect degree perfect, any other trigger diminishes it.
pub open spec fn diminished_for(id: u32) -> PerfectQuality {
    if id == 0 { PerfectQuality::Perfect } else { PerfectQuality::Diminished }
}

/// The qualities after the toggle of `degree` is set by trigger `id`: the second, third,
/// sixth and seventh become major or minor, the fourth perfect or augmented, the fifth
/// perfect or diminished.
pub open spec fn with_degree(q: DegreeQualities, degree: ScaleDegree, id: u32) -> DegreeQualities {
    match degree {
        ScaleDegree::Second => DegreeQualities { second: quality_for(id), ..q },
        ScaleDegree::Third => DegreeQualities { third: quality_for(id), ..q },
        ScaleDegree::Fourth => DegreeQualities { fourth: augmented_for(id), ..q },
        ScaleDegree::Fifth => DegreeQualities { fifth: diminished_for(id), ..q },
        ScaleDegree::Sixth => DegreeQualities { sixth: quality_for(id), ..q },
        ScaleDegree::Seventh => DegreeQualities { seventh: quality_for(id), ..q },
    }
}

/// Whether a degree is altered from its plain quality (minor, augmented fourth,
/// diminished fifth).
pub open spec fn altered(q: DegreeQualities, degree: ScaleDegree) -> bool {
    match degree {
        ScaleDegree::Second => q.second == Quality::Minor,
        ScaleDegree::Third => q.third == Quality::Minor,
        ScaleDegree::Fourth => q.fourth == PerfectQuality::Augmented,
        ScaleDegree::Fifth => q.fifth == PerfectQuality::Diminished,
        ScaleDegree::Sixth => q.sixth == Quality::Minor,
        ScaleDegree::Seventh => q.seventh == Quality::Minor,
    }
}

fn id_to_quality(id: u32) -> (r: Quality)
    ensures
        r == quality_for(id),
{
    if id == 0 { Quality::Major } else { Quality::Minor }
}

fn id_to_augmented_quality(id: u32) -> (r: PerfectQuality)
    ensures
        r == augmented_for(id),
{
    if id == 0 { PerfectQuality::Perfect } else { PerfectQuality::Augmented }
}

fn id_to_diminished_quality(id: u32) -> (r: PerfectQuality)
    ensures
        r == diminished_for(id),
{
    if id == 0 { PerfectQuality::Perfect } else { PerfectQuality::Diminished }
}

/// Two triggers that set the quality of one scale degree; the newest held one decides.
pub struct ScaleDegreeToggle {
    degree: ScaleDegree,
    stack: indexmap::IndexSet<u32>,
}

impl ScaleDegreeToggle {
    /// The degree the toggle sets.
    pub closed spec fn toggled(&self) -> ScaleDegree {
        self.degree
    }

    /// The held triggers, oldest first.
    pub closed spec fn held(&self) -> Seq<u32> {
        index_set_items(self.stack)
    }

    /// A toggle of `degree` with nothing held.
    pub fn new(degree: ScaleDegree) -> (r: ScaleDegreeToggle)
        ensures
            r.toggled() == degree,
            r.held() == Seq::<u32>::empty(),
    {
        ScaleDegreeToggle { degree, stack: index_set_new() }
    }

    /// A trigger changed (a press holds it, a release lets go); the scale's qualities then
    /// take the newest held trigger's setting of the degree, or stay when none is held.
    pub fn trigger(&mut self, id: u32, value: OutputValue, qualities: &mut DegreeQualities)
        ensures
            final(self).toggled() == old(self).toggled(),
            final(self).held() == match value {
                OutputValue::Off => old(self).held().filter(|x: u32| x != id),
                OutputValue::On(_) => if old(self).held().contains(id) {
                    old(self).held()
                } else {
                    old(self).held().push(id)
                },
            },
            *final(qualities) == if final(self).held().len() > 0 {
                with_degree(*old(qualities), old(self).toggled(), final(self).held().last())
            } else {
                *old(qualities)
            },
    {
        match value {
            OutputValue::Off => {
                index_set_shift_remove(&mut self.stack, id);
            }
            OutputValue::On(_) => {
                index_set_insert(&mut self.stack, id);
            }
        }
        self.refresh_output(qualities);
    }

    fn refresh_output(&self, qualities: &mut DegreeQualities)
        ensures
            *final(qualities) == if self.held().len() > 0 {
                with_degree(*old(qualities), self.toggled(), self.held().last())
            } else {
                *old(qualities)
            },
    {
        if let Some(id) = index_set_last(&self.stack) {
            match self.degree {
                ScaleDegree::Second => qualities.second = id_to_quality(id),
                ScaleDegree::Third => qualities.third = id_to_quality(id),
                ScaleDegree::Fourth => qualities.fourth = id_to_augmented_quality(id),
                ScaleDegree::Fifth => qualities.fifth = id_to_diminished_quality(id),
                ScaleDegree::Sixth => qualities.sixth = id_to_quality(id),
                ScaleDegree::Seventh => qualities.seventh = id_to_quality(id),
            }
        }
    }

    /// Whether a trigger shows as the one in force: trigger 0 while the degree is plain,
    /// trigger 1 while it is altered.
    pub fn check_triggering(&self, id: u32, qualities: &DegreeQualities) -> (r: Option<bool>)
        ensures
            r == Some((id == 0 && !altered(*qualities, self.toggled())) || (id == 1 && altered(*qualities, self.toggled()))),
    {
        let active = match self.degree {
            ScaleDegree::Second => qualities.second == Quality::Minor,
            ScaleDegree::Third => qualities.third == Quality::Minor,
            ScaleDegree::Fourth => qualities.fourth == PerfectQuality::Augmented,
            ScaleDegree::Fifth => qualities.fifth == PerfectQuality::Diminished,
            ScaleDegree::Sixth => qualities.sixth == Quality::Minor,
            ScaleDegree::Seventh => qualities.seventh == Quality::Minor,
        };
        if id == 0 && !active || id == 1 && active {
            Some(true)
        } else {
            Some(false)
        }
    }
}

} // verus!
