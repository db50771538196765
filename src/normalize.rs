//! Which normalization passes run over an event before it is stored.
use vstd::prelude::*;

verus! {

/// Settings of event normalization.
#[derive(Clone, Debug, Default, PartialEq, Eq)]
pub struct StoreConfig {
    pub project_id: Option<u64>,
    pub client_ip: Option<String>,
    pub client: Option<String>,
    pub key_id: Option<String>,
    pub protocol_version: Option<String>,
    /// The grouping configuration, as JSON text.
    pub grouping_config: Option<String>,
    pub user_agent: Option<String>,
    /// When the event was received, in seconds since the epoch.
    pub received_at: Option<i64>,
    /// When the client sent the event, in seconds since the epoch.
    pub sent_at: Option<i64>,
    pub max_secs_in_future: Option<i64>,
    pub max_secs_in_past: Option<i64>,
    pub enable_trimming: Option<bool>,
    /// The input already went through normalization once.
    pub is_renormalize: Option<bool>,
    /// Overrides whether unknown attributes are removed.
    pub remove_other: Option<bool>,
    pub normalize_user_agent: Option<bool>,
    /// Span attributes to emit.
    pub span_attributes: Vec<String>,
}

/// One pass over an event.
#[derive(Clone, Copy, Debug, PartialEq, Eq, Structural)]
pub enum NormalizationStep {
    /// Converts legacy data structures to the current format.
    Legacy,
    /// Normalizes data in all interfaces.
    Normalize,
    /// Removes unknown attributes at every level.
    RemoveOther,
    /// Adds event errors for top-level keys.
    EmitEventErrors,
    /// Trims large strings and data bags.
    Trimming,
}

pub open spec fn flag(v: Option<bool>, default: bool) -> bool {
    match v {
        Some(b) => b,
        None => default,
    }
}

/// The passes for a configuration, in order.
pub open spec fn steps_for(c: StoreConfig) -> Seq<NormalizationStep> {
    let renormalize = flag(c.is_renormalize, false);
    let remove_other = flag(c.remove_other, !renormalize);
    let trimming = flag(c.enable_trimming, true);
    seq![NormalizationStep::Legacy] + (if !renormalize {
        seq![NormalizationStep::Normalize]
    } else {
        Seq::empty()
    }) + (if remove_other {
        seq![NormalizationStep::RemoveOther]
    } else {
        Seq::empty()
    }) + (if !renormalize {
        seq![NormalizationStep::EmitEventErrors]
    } else {
        Seq::empty()
    }) + (if trimming {
        seq![NormalizationStep::Trimming]
    } else {
        Seq::empty()
    })
}

/// Plans the normalization of events for the store.
#[derive(Clone, Debug)]
pub struct StoreProcessor {
    config: StoreConfig,
}

impl StoreProcessor {
    pub fn new(config: StoreConfig) -> (r: StoreProcessor)
        ensures
            r.spec_config() == config,
    {
        StoreProcessor { config }
    }

    pub closed spec fn spec_config(&self) -> StoreConfig {
        self.config
    }

    pub fn config(&self) -> (r: &StoreConfig)
        ensures
            *r == self.spec_config(),
    {
        &self.config
    }

    /// The passes to run over an event: legacy conversion always; normalization and event
    /// errors unless renormalizing; removal of unknown attributes by default unless
    /// renormalizing; trimming unless disabled.
    pub fn process_event(&self) -> (r: Vec<NormalizationStep>)
        ensures
            r@ == steps_for(self.spec_config()),
    {
        let renormalize = match self.config.is_renormalize {
            Some(b) => b,
            None => false,
        };
        let remove_other = match self.config.remove_other {
            Some(b) => b,
            None => !renormalize,
        };
        let trimming = match self.config.enable_trimming {
            Some(b) => b,
            None => true,
        };
        let mut steps: Vec<NormalizationStep> = Vec::new();
        steps.push(NormalizationStep::Legacy);
        if !renormalize {
            steps.push(NormalizationStep::Normalize);
        }
        if remove_other {
            steps.push(NormalizationStep::RemoveOther);
        }
        if !renormalize {
            steps.push(NormalizationStep::EmitEventErrors);
        }
        if trimming {
            steps.push(NormalizationStep::Trimming);
        }
        assert(steps@ =~= steps_for(self.config));
        steps
    }
}

} // verus!
