//! The programs and groups that a course configures.

use vstd::prelude::*;

verus! {

/// The name of a group of students.
#[derive(Debug, Default)]
pub struct GroupName(pub String);

impl GroupName {
    pub fn as_str(&self) -> (r: &str)
        ensures
            r@ == self.0@,
    {
        self.0.as_str()
    }
}

/// Where a group's submission lives and how it is run.
#[derive(Debug, Default)]
pub struct GroupConfig {
    pub name: GroupName,
    pub git: Option<String>,
    pub path: Option<String>,
    pub run: Option<String>,
}

/// The groups of a course.
#[derive(Debug, Default)]
pub struct GroupsConfig {
    pub ignored_authors: Vec<String>,
    pub groups: Vec<GroupConfig>,
}

/// A program input as configured: a seed to generate it from, or the
/// input itself.
#[derive(Debug)]
pub struct ProgramConfig {
    pub seed: Option<u64>,
    pub input: Option<String>,
    pub shown: bool,
}

/// The configured inputs of one analysis.
#[derive(Debug, Default)]
pub struct ProgramsEnvConfig {
    pub programs: Vec<ProgramConfig>,
}

/// The position of an input among those of its analysis.
#[derive(Clone, Copy, Debug, Default, PartialEq, Eq, PartialOrd, Ord, Hash, Structural)]
pub struct ProgramId(pub usize);

/// A program input with the input itself fixed.
#[derive(Debug)]
pub struct CanonicalProgramConfig {
    pub input: String,
    pub shown: bool,
}

/// The fixed inputs of one analysis.
#[derive(Debug, Default)]
pub struct CanonicalProgramsEnvConfig {
    pub programs: Vec<CanonicalProgramConfig>,
}

impl ProgramConfig {
    /// Whether the input must be generated from the seed: there is a seed
    /// and no input.
    pub fn needs_generation(&self) -> (r: bool)
        ensures
            r == (self.seed is Some && self.input is None),
    {
        self.seed.is_some() && self.input.is_none()
    }

    /// Fixes the input: the configured one where there is one, else
    /// `generated`, the input generated from the seed. `None` when the
    /// configuration holds neither.
    pub fn canonicalize(&self, generated: Option<String>) -> (r: Option<CanonicalProgramConfig>)
        ensures
            match r {
                Some(c) => c.shown == self.shown && match self.input {
                    Some(i) => c.input@ == i@,
                    None => self.seed is Some && generated is Some && c.input@ == generated->0@,
                },
                None => self.input is None && (self.seed is None || generated is None),
            },
    {
        match &self.input {
            Some(i) => Some(CanonicalProgramConfig { input: i.clone(), shown: self.shown }),
            None => {
                if self.seed.is_none() {
                    return None;
                }
                match generated {
                    Some(g) => Some(CanonicalProgramConfig { input: g, shown: self.shown }),
                    None => None,
                }
            },
        }
    }
}

impl CanonicalProgramsEnvConfig {
    /// The inputs with their positions.
    pub fn programs(&self) -> (r: Vec<(ProgramId, &CanonicalProgramConfig)>)
        ensures
            r@.len() == self.programs@.len(),
            forall|i: int| 0 <= i < r@.len() ==> #[trigger] r@[i].0 == ProgramId(i as usize) && *r@[i].1 == self.programs@[i],
    {
        let mut r: Vec<(ProgramId, &CanonicalProgramConfig)> = Vec::new();
        let mut i: usize = 0;
        while i < self.programs.len()
            invariant
                i <= self.programs@.len(),
                r@.len() == i,
                forall|j: int| 0 <= j < i ==> #[trigger] r@[j].0 == ProgramId(j as usize) && *r@[j].1 == self.programs@[j],
            decreases self.programs@.len() - i,
        {
            r.push((ProgramId(i), &self.programs[i]));
            i = i + 1;
        }
        r
    }
}

} // verus!
