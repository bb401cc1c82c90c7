//! The global AI settings and how they are cleaned before being saved.
use vstd::prelude::*;

use crate::provider::{
    clamp_tokens, clean_base, normalize_endpoint_config, ModelEndpointConfig, ProviderKind,
};
use crate::text::{char_count, trim, trim_str};

verus! {

/// The AI companion settings. The chance that a heartbeat looks at the
/// desktop is stored as the IEEE-754 bits of its `f64` value; the library
/// keeps it but never computes with it.
pub struct AiSettings {
    pub enabled: bool,
    pub chat_model: Option<ModelEndpointConfig>,
    pub vision_model: Option<ModelEndpointConfig>,
    pub memory_enabled: bool,
    pub max_recent_messages: usize,
    pub heartbeat_enabled: bool,
    pub heartbeat_min_minutes: u32,
    pub heartbeat_max_minutes: u32,
    pub heartbeat_vision_chance_bits: u64,
    pub desktop_vision_enabled: bool,
}

/// The bits of `0.3f64`.
pub const THREE_TENTHS_BITS: u64 = 0x3FD3_3333_3333_3333u64;

impl Default for AiSettings {
    fn default() -> (s: Self)
        ensures
            !s.enabled,
            s.chat_model is None,
            s.vision_model is None,
            s.memory_enabled,
            s.max_recent_messages == 12,
            s.heartbeat_enabled,
            s.heartbeat_min_minutes == 20,
            s.heartbeat_max_minutes == 60,
            s.heartbeat_vision_chance_bits == THREE_TENTHS_BITS,
            !s.desktop_vision_enabled,
    {
        AiSettings {
            enabled: false,
            chat_model: None,
            vision_model: None,
            memory_enabled: true,
            max_recent_messages: 12,
            heartbeat_enabled: true,
            heartbeat_min_minutes: 20,
            heartbeat_max_minutes: 60,
            heartbeat_vision_chance_bits: THREE_TENTHS_BITS,
            desktop_vision_enabled: false,
        }
    }
}

/// A configured endpoint with a non-blank model name.
pub open spec fn has_model(m: Option<ModelEndpointConfig>) -> bool {
    match m {
        Some(c) => trim(c.model@).len() > 0,
        None => false,
    }
}

/// `settings_have_chat`: AI is on and a chat model is named.
pub fn settings_have_chat(settings: &AiSettings) -> (b: bool)
    ensures
        b == (settings.enabled && has_model(settings.chat_model)),
{
    settings.enabled && model_named(&settings.chat_model)
}

/// Whether an optional endpoint names a model.
pub fn model_named(model: &Option<ModelEndpointConfig>) -> (b: bool)
    ensures
        b == has_model(*model),
{
    match model {
        Some(c) => {
            let t = trim_str(c.model.as_str());
            char_count(t.as_str()) > 0
        },
        None => false,
    }
}

pub open spec fn clamp_u32(v: u32, lo: u32, hi: u32) -> u32 {
    if v < lo {
        lo
    } else if v > hi {
        hi
    } else {
        v
    }
}

pub open spec fn clamp_usize(v: usize, lo: usize, hi: usize) -> usize {
    if v < lo {
        lo
    } else if v > hi {
        hi
    } else {
        v
    }
}

/// The endpoint after `normalize_endpoint_config`.
pub open spec fn normalized_model(old: Option<ModelEndpointConfig>, new: Option<ModelEndpointConfig>) -> bool {
    match (old, new) {
        (Some(o), Some(n)) => n.provider == o.provider && n.base_url@ == clean_base(o.base_url@)
            && n.model@ == trim(o.model@) && n.credential_ref == o.credential_ref
            && n.max_output_tokens == clamp_tokens(o.max_output_tokens),
        (None, None) => true,
        _ => false,
    }
}

fn normalize_model(m: Option<ModelEndpointConfig>) -> (res: Option<ModelEndpointConfig>)
    ensures
        normalized_model(m, res),
{
    match m {
        Some(c) => Some(normalize_endpoint_config(c)),
        None => None,
    }
}

/// `update_ai_settings` before saving (the desktop-vision chance is
/// clamped to 0..=1 by the caller, being a float): both endpoints
/// normalized, recent messages within 2..=40, the heartbeat minimum within
/// 1..=1440 and the maximum at least the minimum, within 1..=1440.
pub fn normalize_ai_settings(settings: AiSettings) -> (res: AiSettings)
    ensures
        res.enabled == settings.enabled,
        normalized_model(settings.chat_model, res.chat_model),
        normalized_model(settings.vision_model, res.vision_model),
        res.memory_enabled == settings.memory_enabled,
        res.max_recent_messages == clamp_usize(settings.max_recent_messages, 2, 40),
        res.heartbeat_enabled == settings.heartbeat_enabled,
        res.heartbeat_min_minutes == clamp_u32(settings.heartbeat_min_minutes, 1, 1440),
        res.heartbeat_max_minutes == clamp_u32(
            if settings.heartbeat_max_minutes >= res.heartbeat_min_minutes {
                settings.heartbeat_max_minutes
            } else {
                res.heartbeat_min_minutes
            },
            1,
            1440,
        ),
        res.heartbeat_vision_chance_bits == settings.heartbeat_vision_chance_bits,
        res.desktop_vision_enabled == settings.desktop_vision_enabled,
{
    let mut s = settings;
    s.chat_model = normalize_model(s.chat_model);
    s.vision_model = normalize_model(s.vision_model);
    s.max_recent_messages = if s.max_recent_messages < 2 {
        2
    } else if s.max_recent_messages > 40 {
        40
    } else {
        s.max_recent_messages
    };
    s.heartbeat_min_minutes = if s.heartbeat_min_minutes < 1 {
        1
    } else if s.heartbeat_min_minutes > 1440 {
        1440
    } else {
        s.heartbeat_min_minutes
    };
    let raised: u32 = if s.heartbeat_max_minutes >= s.heartbeat_min_minutes {
        s.heartbeat_max_minutes
    } else {
        s.heartbeat_min_minutes
    };
    s.heartbeat_max_minutes = if raised < 1 {
        1
    } else if raised > 1440 {
        1440
    } else {
        raised
    };
    s
}

/// The heartbeat range in minutes: the smaller setting, and the larger.
pub open spec fn heartbeat_bounds(settings: AiSettings) -> (u32, u32) {
    let lo = if settings.heartbeat_min_minutes <= settings.heartbeat_max_minutes {
        settings.heartbeat_min_minutes
    } else {
        settings.heartbeat_max_minutes
    };
    let hi = if settings.heartbeat_max_minutes >= lo {
        settings.heartbeat_max_minutes
    } else {
        lo
    };
    (lo, hi)
}

/// Calls `rand::rng().random_range(lo..=hi)`. Its result depends on chance;
/// rand documents it to lie in the range (it panics only for an empty
/// range, which `requires` rules out).
#[verifier::external_body]
fn random_between(lo: u32, hi: u32) -> (r: u32)
    requires
        lo <= hi,
    ensures
        lo <= r <= hi,
{
    rand::Rng::random_range(&mut rand::rng(), lo..=hi)
}

/// `random_heartbeat_delay`, in seconds: a random whole number of minutes
/// between the configured bounds.
pub fn random_heartbeat_delay(settings: &AiSettings) -> (secs: u64)
    ensures
        secs % 60 == 0,
        heartbeat_bounds(*settings).0 as int * 60 <= secs,
        secs <= heartbeat_bounds(*settings).1 as int * 60,
{
    let lo: u32 = if settings.heartbeat_min_minutes <= settings.heartbeat_max_minutes {
        settings.heartbeat_min_minutes
    } else {
        settings.heartbeat_max_minutes
    };
    let hi: u32 = if settings.heartbeat_max_minutes >= lo {
        settings.heartbeat_max_minutes
    } else {
        lo
    };
    let minutes = random_between(lo, hi);
    minutes as u64 * 60
}

} // verus!
