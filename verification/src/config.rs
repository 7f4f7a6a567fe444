//! Run configuration and its startup validation.
//!
//! A configuration is read once before the loop starts; a missing or
//! malformed field is fatal at startup and names the offending field.
//! The reading of the configuration file is a collaborator's job: it hands
//! this module one optional raw value per field, and `Configs::from_fields`
//! decides, exactly, what is accepted.

use vstd::prelude::*;

verus! {

/// The validated knobs of one run.
#[derive(Clone, Copy, Debug, PartialEq, Eq, Structural)]
pub struct Configs {
    pub plot_graph: bool,
    pub plotting_frame_subselection_factor: usize,
    pub tick_count: usize,
    pub agent_count: usize,
    pub seed: usize,
}

/// The configuration fields, for error reporting.
#[derive(Clone, Copy, Debug, PartialEq, Eq, Structural)]
pub enum ConfigField {
    PlotGraph,
    PlottingFrameSubselectionFactor,
    TickCount,
    AgentCount,
    Seed,
}

/// Why a configuration was rejected: the first field, in declaration
/// order, that is absent or holds an unusable value.
#[derive(Clone, Copy, Debug, PartialEq, Eq, Structural)]
pub enum ConfigError {
    MissingField(ConfigField),
    InvalidField(ConfigField),
}

/// A raw count is usable when it is non-negative and fits the machine's
/// size type.
pub open spec fn spec_count_ok(v: i64) -> bool {
    0 <= v && v <= usize::MAX as int
}

/// What validation returns, exactly, for every combination of raw fields:
/// the first problem in field order, or the validated configuration.  The
/// plotting cadence must moreover be at least one, so that "every n-th
/// tick" is well defined.
pub open spec fn spec_configs_from_fields(
    plot_graph: Option<bool>,
    plotting_frame_subselection_factor: Option<i64>,
    tick_count: Option<i64>,
    agent_count: Option<i64>,
    seed: Option<i64>,
) -> Result<Configs, ConfigError> {
    match plot_graph {
        Option::None => Result::Err(ConfigError::MissingField(ConfigField::PlotGraph)),
        Option::Some(pg) => match plotting_frame_subselection_factor {
            Option::None => Result::Err(
                ConfigError::MissingField(ConfigField::PlottingFrameSubselectionFactor),
            ),
            Option::Some(ppsf) => if !(spec_count_ok(ppsf) && ppsf >= 1) {
                Result::Err(
                    ConfigError::InvalidField(ConfigField::PlottingFrameSubselectionFactor),
                )
            } else {
                match tick_count {
                    Option::None => Result::Err(
                        ConfigError::MissingField(ConfigField::TickCount),
                    ),
                    Option::Some(tc) => if !spec_count_ok(tc) {
                        Result::Err(ConfigError::InvalidField(ConfigField::TickCount))
                    } else {
                        match agent_count {
                            Option::None => Result::Err(
                                ConfigError::MissingField(ConfigField::AgentCount),
                            ),
                            Option::Some(ac) => if !spec_count_ok(ac) {
                                Result::Err(ConfigError::InvalidField(ConfigField::AgentCount))
                            } else {
                                match seed {
                                    Option::None => Result::Err(
                                        ConfigError::MissingField(ConfigField::Seed),
                                    ),
                                    Option::Some(sd) => if !spec_count_ok(sd) {
                                        Result::Err(ConfigError::InvalidField(ConfigField::Seed))
                                    } else {
                                        Result::Ok(
                                            Configs {
                                                plot_graph: pg,
                                                plotting_frame_subselection_factor: ppsf as usize,
                                                tick_count: tc as usize,
                                                agent_count: ac as usize,
                                                seed: sd as usize,
                                            },
                                        )
                                    },
                                }
                            },
                        }
                    },
                }
            },
        },
    }
}

/// Checks that a raw count is usable on this machine.
fn count_ok(v: i64) -> (ok: bool)
    ensures
        ok == spec_count_ok(v),
{
    v >= 0 && (v as u64) <= (usize::MAX as u64)
}

impl Configs {
    /// Validates the raw field values of a configuration source and builds
    /// the configuration, or reports the first absent or unusable field.
    pub fn from_fields(
        plot_graph: Option<bool>,
        plotting_frame_subselection_factor: Option<i64>,
        tick_count: Option<i64>,
        agent_count: Option<i64>,
        seed: Option<i64>,
    ) -> (r: Result<Configs, ConfigError>)
        ensures
            r == spec_configs_from_fields(
                plot_graph,
                plotting_frame_subselection_factor,
                tick_count,
                agent_count,
                seed,
            ),
    {
        let pg = match plot_graph {
            Option::None => {
                return Result::Err(ConfigError::MissingField(ConfigField::PlotGraph));
            },
            Option::Some(v) => v,
        };
        let ppsf = match plotting_frame_subselection_factor {
            Option::None => {
                return Result::Err(
                    ConfigError::MissingField(ConfigField::PlottingFrameSubselectionFactor),
                );
            },
            Option::Some(v) => v,
        };
        if !(count_ok(ppsf) && ppsf >= 1) {
            return Result::Err(
                ConfigError::InvalidField(ConfigField::PlottingFrameSubselectionFactor),
            );
        }
        let tc = match tick_count {
            Option::None => {
                return Result::Err(ConfigError::MissingField(ConfigField::TickCount));
            },
            Option::Some(v) => v,
        };
        if !count_ok(tc) {
            return Result::Err(ConfigError::InvalidField(ConfigField::TickCount));
        }
        let ac = match agent_count {
            Option::None => {
                return Result::Err(ConfigError::MissingField(ConfigField::AgentCount));
            },
            Option::Some(v) => v,
        };
        if !count_ok(ac) {
            return Result::Err(ConfigError::InvalidField(ConfigField::AgentCount));
        }
        let sd = match seed {
            Option::None => {
                return Result::Err(ConfigError::MissingField(ConfigField::Seed));
            },
            Option::Some(v) => v,
        };
        if !count_ok(sd) {
            return Result::Err(ConfigError::InvalidField(ConfigField::Seed));
        }
        Result::Ok(
            Configs {
                plot_graph: pg,
                plotting_frame_subselection_factor: ppsf as usize,
                tick_count: tc as usize,
                agent_count: ac as usize,
                seed: sd as usize,
            },
        )
    }
}

} // verus!
