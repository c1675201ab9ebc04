//! Age-policy evaluation shared by the serving and fetch paths.

use vstd::prelude::*;

use crate::config::{span, span_of, AgePolicyConfig, ACTION_WARN};
use crate::text::same;
use crate::times::{steady_stamps_only_age, valid_instant, Stamp};

verus! {

/// The outcome of an age-policy evaluation.
#[derive(Debug, Clone, Copy, PartialEq, Eq, Structural)]
pub enum AgeDecision {
    /// Policy disabled, satisfied, or no release time known.
    Allow,
    /// Violates policy but the action is "warn".
    Warn,
    /// Violates policy and the action is "block".
    Block,
}

/// A release of `published` is younger than the cooldown window at `now`.
pub open spec fn too_new(cfg: AgePolicyConfig, published: Stamp, now: int) -> bool {
    span_of(cfg.min_age) != 0 && published.age(now) < span_of(cfg.min_age)
}

/// A release of `published` is past the oldest age allowed at `now`.
pub open spec fn too_old(cfg: AgePolicyConfig, published: Stamp, now: int) -> bool {
    span_of(cfg.max_age) != 0 && published.age(now) > span_of(cfg.max_age)
}

/// The decision on a release of `published` at `now`, and the reason for it. A
/// release without a known time is allowed.
pub open spec fn age_decision(cfg: AgePolicyConfig, published: Option<Stamp>, now: int) -> (
    AgeDecision,
    Seq<char>,
) {
    match published {
        None => (AgeDecision::Allow, ""@),
        Some(p) => {
            let reason = if too_old(cfg, p, now) {
                "release is older than max_age"@
            } else {
                "release is newer than min_age cooldown"@
            };
            if !cfg.enabled || !(too_new(cfg, p, now) || too_old(cfg, p, now)) {
                (AgeDecision::Allow, ""@)
            } else if cfg.action@ == ACTION_WARN@ {
                (AgeDecision::Warn, reason)
            } else {
                (AgeDecision::Block, reason)
            }
        },
    }
}

/// Applies a repository's age policy to an upstream release time. The primary use
/// is a cooldown window: freshly published versions are quarantined. A release
/// whose time is unknown is allowed.
pub fn evaluate_age(cfg: &AgePolicyConfig, published_at: Option<Stamp>, now: i128) -> (r: (
    AgeDecision,
    &'static str,
))
    requires
        valid_instant(now as int),
        published_at is Some ==> published_at->0.wf(),
    ensures
        (r.0, r.1@) == age_decision(*cfg, published_at, now as int),
{
    let published = match published_at {
        None => return (AgeDecision::Allow, ""),
        Some(p) => p,
    };
    if !cfg.enabled {
        return (AgeDecision::Allow, "");
    }
    let age: i128 = published.age_at(now);
    let min: i128 = span(cfg.min_age);
    let max: i128 = span(cfg.max_age);
    let newer = min != 0 && age < min;
    let older = max != 0 && age > max;
    if !newer && !older {
        return (AgeDecision::Allow, "");
    }
    let violated = if older {
        "release is older than max_age"
    } else {
        "release is newer than min_age cooldown"
    };
    if same(cfg.action.as_str(), ACTION_WARN) {
        return (AgeDecision::Warn, violated);
    }
    (AgeDecision::Block, violated)
}

/// Nothing is ever blocked for want of a release time.
pub proof fn unknown_age_is_allowed(cfg: AgePolicyConfig, now: int)
    ensures
        age_decision(cfg, None, now).0 == AgeDecision::Allow,
{
}

/// A disabled policy allows everything.
pub proof fn disabled_policy_allows(cfg: AgePolicyConfig, published: Option<Stamp>, now: int)
    requires
        !cfg.enabled,
    ensures
        age_decision(cfg, published, now).0 == AgeDecision::Allow,
{
}

/// A cooldown ends: without an oldest age, what is let through at one instant is let
/// through at every later one. A leap second in the middle of a day, whose age does not
/// only grow, is left out.
pub proof fn cooldown_only_ends(cfg: AgePolicyConfig, published: Option<Stamp>, now: int, later: int)
    requires
        span_of(cfg.max_age) == 0,
        now <= later,
        published is Some ==> published->0.steady(),
        age_decision(cfg, published, now).0 == AgeDecision::Allow,
    ensures
        age_decision(cfg, published, later).0 == AgeDecision::Allow,
{
    if let Some(p) = published {
        steady_stamps_only_age(p, now);
        steady_stamps_only_age(p, later);
    }
}

/// The action decides only between a warning and a refusal: with the action "warn"
/// nothing is blocked.
pub proof fn warnings_never_block(cfg: AgePolicyConfig, published: Option<Stamp>, now: int)
    requires
        cfg.action@ == ACTION_WARN@,
    ensures
        age_decision(cfg, published, now).0 != AgeDecision::Block,
{
}

} // verus!
