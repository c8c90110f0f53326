//! The settings of a tenant: those that a tenant overrides, and the defaults
//! that stand where it overrides nothing.

use vstd::prelude::*;

verus! {

/// The settings in effect. Times are in milliseconds.
#[derive(Clone, Copy, Debug, PartialEq, Eq, Structural)]
pub struct TenantConf {
    pub checkpoint_distance: u64,
    pub checkpoint_timeout: u64,
    pub compaction_target_size: u64,
    pub compaction_period: u64,
    pub compaction_threshold: usize,
    pub gc_horizon: u64,
    pub gc_period: u64,
    pub image_creation_threshold: usize,
    pub pitr_interval: u64,
    pub trace_read_requests: bool,
    pub min_resident_size_override: Option<u64>,
}

/// The settings that a tenant overrides; `None` where it does not.
#[derive(Clone, Copy, Debug, PartialEq, Eq, Structural)]
pub struct TenantConfOpt {
    pub checkpoint_distance: Option<u64>,
    pub checkpoint_timeout: Option<u64>,
    pub compaction_target_size: Option<u64>,
    pub compaction_period: Option<u64>,
    pub compaction_threshold: Option<usize>,
    pub gc_horizon: Option<u64>,
    pub gc_period: Option<u64>,
    pub image_creation_threshold: Option<usize>,
    pub pitr_interval: Option<u64>,
    pub trace_read_requests: Option<bool>,
    pub min_resident_size_override: Option<u64>,
}

/// `over` where it is set, else `default`.
pub open spec fn or_default<T>(over: Option<T>, default: T) -> T {
    match over {
        Some(v) => v,
        None => default,
    }
}

/// `over` where it is set, else `default`.
pub open spec fn or_else<T>(over: Option<T>, default: Option<T>) -> Option<T> {
    match over {
        Some(v) => Some(v),
        None => default,
    }
}

impl TenantConfOpt {
    /// Overrides nothing.
    pub open spec fn no_overrides() -> TenantConfOpt {
        TenantConfOpt {
            checkpoint_distance: None,
            checkpoint_timeout: None,
            compaction_target_size: None,
            compaction_period: None,
            compaction_threshold: None,
            gc_horizon: None,
            gc_period: None,
            image_creation_threshold: None,
            pitr_interval: None,
            trace_read_requests: None,
            min_resident_size_override: None,
        }
    }

    /// Overrides nothing.
    pub fn none() -> (c: TenantConfOpt)
        ensures
            c == Self::no_overrides(),
    {
        TenantConfOpt {
            checkpoint_distance: None,
            checkpoint_timeout: None,
            compaction_target_size: None,
            compaction_period: None,
            compaction_threshold: None,
            gc_horizon: None,
            gc_period: None,
            image_creation_threshold: None,
            pitr_interval: None,
            trace_read_requests: None,
            min_resident_size_override: None,
        }
    }

    /// The settings in effect: each override where it is set, else the
    /// default.
    pub open spec fn merge_spec(&self, default: TenantConf) -> TenantConf {
        TenantConf {
            checkpoint_distance: or_default(self.checkpoint_distance, default.checkpoint_distance),
            checkpoint_timeout: or_default(self.checkpoint_timeout, default.checkpoint_timeout),
            compaction_target_size: or_default(
                self.compaction_target_size,
                default.compaction_target_size,
            ),
            compaction_period: or_default(self.compaction_period, default.compaction_period),
            compaction_threshold: or_default(
                self.compaction_threshold,
                default.compaction_threshold,
            ),
            gc_horizon: or_default(self.gc_horizon, default.gc_horizon),
            gc_period: or_default(self.gc_period, default.gc_period),
            image_creation_threshold: or_default(
                self.image_creation_threshold,
                default.image_creation_threshold,
            ),
            pitr_interval: or_default(self.pitr_interval, default.pitr_interval),
            trace_read_requests: or_default(self.trace_read_requests, default.trace_read_requests),
            min_resident_size_override: or_else(
                self.min_resident_size_override,
                default.min_resident_size_override,
            ),
        }
    }

    /// The settings in effect.
    pub fn merge(&self, default: TenantConf) -> (c: TenantConf)
        ensures
            c == self.merge_spec(default),
    {
        TenantConf {
            checkpoint_distance: match self.checkpoint_distance {
                Some(v) => v,
                None => default.checkpoint_distance,
            },
            checkpoint_timeout: match self.checkpoint_timeout {
                Some(v) => v,
                None => default.checkpoint_timeout,
            },
            compaction_target_size: match self.compaction_target_size {
                Some(v) => v,
                None => default.compaction_target_size,
            },
            compaction_period: match self.compaction_period {
                Some(v) => v,
                None => default.compaction_period,
            },
            compaction_threshold: match self.compaction_threshold {
                Some(v) => v,
                None => default.compaction_threshold,
            },
            gc_horizon: match self.gc_horizon {
                Some(v) => v,
                None => default.gc_horizon,
            },
            gc_period: match self.gc_period {
                Some(v) => v,
                None => default.gc_period,
            },
            image_creation_threshold: match self.image_creation_threshold {
                Some(v) => v,
                None => default.image_creation_threshold,
            },
            pitr_interval: match self.pitr_interval {
                Some(v) => v,
                None => default.pitr_interval,
            },
            trace_read_requests: match self.trace_read_requests {
                Some(v) => v,
                None => default.trace_read_requests,
            },
            min_resident_size_override: match self.min_resident_size_override {
                Some(v) => Some(v),
                None => default.min_resident_size_override,
            },
        }
    }
}

} // verus!
