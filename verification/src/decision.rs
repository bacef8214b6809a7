use crate::binary64::Binary64;
use crate::orders::{contains_text, lists, Order, Side};
use crate::regime::TickRegime;
use vstd::prelude::*;

verus! {

/// What is to become of an order.
#[derive(Debug, Clone, Copy, PartialEq, Eq, Structural)]
pub enum DecisionAction {
    Keep,
    Cancel,
    Replace { new_price: Binary64 },
}

#[derive(Debug, Clone, Copy, PartialEq, Eq, Structural)]
pub enum PricingMode {
    Default,
    Custom,
}

impl PricingMode {
    pub open spec fn name(self) -> Seq<char> {
        match self {
            PricingMode::Default => "default"@,
            PricingMode::Custom => "custom"@,
        }
    }

    pub fn label(self) -> (t: &'static str)
        ensures
            t@ == self.name(),
    {
        match self {
            PricingMode::Default => "default",
            PricingMode::Custom => "custom",
        }
    }
}

/// A decision about an order, and how it came about: the candidate prices, the price aimed at, and
/// the risk that was laid over it. What a risk is, is up to the strategy: here it is only carried.
#[derive(Debug)]
pub struct PricingDecision<R> {
    pub action: DecisionAction,
    pub reason: String,
    pub mode: PricingMode,
    pub regime: TickRegime,
    pub candidate_prices: Vec<Binary64>,
    pub chosen_target: Option<Binary64>,
    pub risk_overlay: Option<R>,
}

pub struct PricingDecisionView<R> {
    pub action: DecisionAction,
    pub reason: Seq<char>,
    pub mode: PricingMode,
    pub regime: TickRegime,
    pub candidate_prices: Seq<Binary64>,
    pub chosen_target: Option<Binary64>,
    pub risk_overlay: Option<R>,
}

impl<R> View for PricingDecision<R> {
    type V = PricingDecisionView<R>;

    open spec fn view(&self) -> PricingDecisionView<R> {
        PricingDecisionView {
            action: self.action,
            reason: self.reason@,
            mode: self.mode,
            regime: self.regime,
            candidate_prices: self.candidate_prices@,
            chosen_target: self.chosen_target,
            risk_overlay: self.risk_overlay,
        }
    }
}

/// What is done with an order whose reward is not known: it is cancelled. No price is aimed at,
/// and no risk weighed.
pub open spec fn fail_closed<R>() -> PricingDecisionView<R> {
    PricingDecisionView {
        action: DecisionAction::Cancel,
        reason: "reward_unavailable_fail_closed"@,
        mode: PricingMode::Default,
        regime: TickRegime::Unsupported,
        candidate_prices: Seq::empty(),
        chosen_target: None,
        risk_overlay: None,
    }
}

pub fn cancel_without_reward<R>() -> (d: PricingDecision<R>)
    ensures
        d@ == fail_closed::<R>(),
{
    let d = PricingDecision {
        action: DecisionAction::Cancel,
        reason: "reward_unavailable_fail_closed".to_owned(),
        mode: PricingMode::Default,
        regime: TickRegime::Unsupported,
        candidate_prices: Vec::new(),
        chosen_target: None,
        risk_overlay: None,
    };
    assert(d@.candidate_prices =~= Seq::empty());
    d
}

/// The decision after the cooldowns: in either of them an order is kept where it would have been
/// replaced. After a fill the reason says so behind the reason to replace; after a version
/// mismatch it stands alone.
pub open spec fn cooled<R>(
    d: PricingDecisionView<R>,
    recently_filled: bool,
    version_mismatch: bool,
) -> PricingDecisionView<R> {
    if !(d.action is Replace) {
        d
    } else if recently_filled {
        PricingDecisionView {
            action: DecisionAction::Keep,
            reason: d.reason + "_recent_fill_cooldown"@,
            ..d
        }
    } else if version_mismatch {
        PricingDecisionView {
            action: DecisionAction::Keep,
            reason: "order_version_mismatch_cooldown"@,
            ..d
        }
    } else {
        d
    }
}

pub fn apply_cooldowns<R>(
    decision: PricingDecision<R>,
    recently_filled: bool,
    version_mismatch: bool,
) -> (d: PricingDecision<R>)
    ensures
        d@ == cooled(decision@, recently_filled, version_mismatch),
{
    let mut d = decision;
    if recently_filled {
        if let DecisionAction::Replace { .. } = d.action {
            d.action = DecisionAction::Keep;
            d.reason = d.reason.clone().concat("_recent_fill_cooldown");
        }
    }
    if version_mismatch {
        if let DecisionAction::Replace { .. } = d.action {
            d.action = DecisionAction::Keep;
            d.reason = "order_version_mismatch_cooldown".to_owned();
        }
    }
    d
}

/// In a cooldown nothing is replaced.
pub proof fn lemma_cooldown_replaces_nothing<R>(
    d: PricingDecisionView<R>,
    recently_filled: bool,
    version_mismatch: bool,
)
    requires
        recently_filled || version_mismatch,
    ensures
        !(cooled(d, recently_filled, version_mismatch).action is Replace),
{
}

/// A cooldown changes only decisions to replace, and of those only the action and the reason.
pub proof fn lemma_cooldown_touches_replacements_only<R>(
    d: PricingDecisionView<R>,
    recently_filled: bool,
    version_mismatch: bool,
)
    ensures
        !(d.action is Replace) ==> cooled(d, recently_filled, version_mismatch) == d,
        cooled(d, false, false) == d,
        cooled(d, recently_filled, version_mismatch).mode == d.mode,
        cooled(d, recently_filled, version_mismatch).regime == d.regime,
        cooled(d, recently_filled, version_mismatch).candidate_prices == d.candidate_prices,
        cooled(d, recently_filled, version_mismatch).chosen_target == d.chosen_target,
        cooled(d, recently_filled, version_mismatch).risk_overlay == d.risk_overlay,
{
}

/// An order to the execution engine.
#[derive(Debug)]
pub struct ExecutionRequest<R> {
    pub order_id: String,
    pub token_id: String,
    pub side: Side,
    pub old_price: Binary64,
    pub size: Binary64,
    pub decision: PricingDecision<R>,
}

/// The request carries the decision about the order, and what the order is.
pub open spec fn requests<R>(
    request: ExecutionRequest<R>,
    order: Order,
    decision: PricingDecisionView<R>,
) -> bool {
    &&& request.order_id@ == order.id@
    &&& request.token_id@ == order.token_id@
    &&& request.side == order.side
    &&& request.old_price == order.price
    &&& request.size == order.remaining_size
    &&& request.decision@ == decision
}

pub fn request_for<R>(order: &Order, decision: PricingDecision<R>) -> (request: ExecutionRequest<
    R,
>)
    ensures
        requests(request, *order, decision@),
{
    ExecutionRequest {
        order_id: order.id.clone(),
        token_id: order.token_id.clone(),
        side: order.side,
        old_price: order.price,
        size: order.remaining_size,
        decision,
    }
}

/// An order is priced by custom settings where a rule exists for its token and side, where that
/// is the default, or where it was chosen by its identifier.
pub open spec fn custom_applies(
    has_rule: bool,
    custom_by_default: bool,
    custom_order_ids: Seq<String>,
    order_id: Seq<char>,
) -> bool {
    has_rule || custom_by_default || lists(custom_order_ids, order_id)
}

pub fn uses_custom(
    has_rule: bool,
    custom_by_default: bool,
    custom_order_ids: &Vec<String>,
    order_id: &String,
) -> (b: bool)
    ensures
        b == custom_applies(has_rule, custom_by_default, custom_order_ids@, order_id@),
{
    has_rule || custom_by_default || contains_text(custom_order_ids, order_id)
}

/// The settings of the rule for an order, or the default ones.
pub fn settings_or_default<S>(rule: Option<S>, default: S) -> (settings: S)
    ensures
        settings == (match rule {
            Some(own) => own,
            None => default,
        }),
{
    match rule {
        Some(own) => own,
        None => default,
    }
}

/// The text of the custom settings, from their numbers as texts.
pub open spec fn custom_summary(
    coarse_offset: Seq<char>,
    allow_top: bool,
    min_candidates: Seq<char>,
    safe_min: Seq<char>,
    safe_max: Seq<char>,
    target: Seq<char>,
) -> Seq<char> {
    "custom coarse_n="@ + coarse_offset + " allow_top="@ + (if allow_top {
        "true"@
    } else {
        "false"@
    }) + " min_cands="@ + min_candidates + " safe=["@ + safe_min + ","@ + safe_max + "] target="@
        + target
}

/// The text that describes the rule an order is priced by.
pub fn rule_summary(
    custom: bool,
    coarse_offset: &str,
    allow_top: bool,
    min_candidates: &str,
    safe_min: &str,
    safe_max: &str,
    target: &str,
) -> (t: String)
    ensures
        t@ == (if custom {
            custom_summary(
                coarse_offset@,
                allow_top,
                min_candidates@,
                safe_min@,
                safe_max@,
                target@,
            )
        } else {
            "default(simple coarse/fine)"@
        }),
{
    if custom {
        let top = if allow_top { "true" } else { "false" };
        "custom coarse_n=".to_owned().concat(coarse_offset).concat(" allow_top=").concat(top).concat(
            " min_cands=",
        ).concat(min_candidates).concat(" safe=[").concat(safe_min).concat(",").concat(
            safe_max,
        ).concat("] target=").concat(target)
    } else {
        "default(simple coarse/fine)".to_owned()
    }
}

} // verus!
