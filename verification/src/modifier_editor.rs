//! The trigger kinds that the effect modifier editor offers, with the labels
//! it shows for them.

use vstd::prelude::*;

use crate::text::{chars_eq, chars_of};

verus! {

/// The kind of trigger a modifier reacts to, as the editor's selector lists it.
#[derive(Debug, Clone, Copy, PartialEq, Eq, Structural)]
pub enum ModifierTriggerType {
    AbilityCast,
    DamageTaken,
    DamageDealt,
    HealingTaken,
    HealingDealt,
    EffectApplied,
    EffectRemoved,
    ChargesChanged,
    SelfChargesChanged,
    ResourceSpent,
    KillingBlow,
    AnyOf,
}

impl Default for ModifierTriggerType {
    fn default() -> (r: Self)
        ensures
            r == ModifierTriggerType::AbilityCast,
    {
        ModifierTriggerType::AbilityCast
    }
}

/// The label shown for each trigger kind.
pub open spec fn spec_label(t: ModifierTriggerType) -> Seq<char> {
    match t {
        ModifierTriggerType::AbilityCast => "Ability Cast"@,
        ModifierTriggerType::DamageTaken => "Damage Taken"@,
        ModifierTriggerType::DamageDealt => "Damage Dealt"@,
        ModifierTriggerType::HealingTaken => "Healing Taken"@,
        ModifierTriggerType::HealingDealt => "Healing Dealt"@,
        ModifierTriggerType::EffectApplied => "Effect Applied"@,
        ModifierTriggerType::EffectRemoved => "Effect Removed"@,
        ModifierTriggerType::ChargesChanged => "Charges Changed"@,
        ModifierTriggerType::SelfChargesChanged => "Self Charges Changed"@,
        ModifierTriggerType::ResourceSpent => "Resource Spent"@,
        ModifierTriggerType::KillingBlow => "Killing Blow"@,
        ModifierTriggerType::AnyOf => "Any Of (OR)"@,
    }
}

/// Every trigger kind, in the order the selector lists them; `AnyOf` last.
pub open spec fn spec_all() -> Seq<ModifierTriggerType> {
    seq![
        ModifierTriggerType::AbilityCast,
        ModifierTriggerType::DamageTaken,
        ModifierTriggerType::DamageDealt,
        ModifierTriggerType::HealingTaken,
        ModifierTriggerType::HealingDealt,
        ModifierTriggerType::EffectApplied,
        ModifierTriggerType::EffectRemoved,
        ModifierTriggerType::ChargesChanged,
        ModifierTriggerType::SelfChargesChanged,
        ModifierTriggerType::ResourceSpent,
        ModifierTriggerType::KillingBlow,
        ModifierTriggerType::AnyOf,
    ]
}

impl ModifierTriggerType {
    /// The label the selector shows.
    pub fn label(self) -> (r: &'static str)
        ensures
            r@ == spec_label(self),
    {
        match self {
            ModifierTriggerType::AbilityCast => "Ability Cast",
            ModifierTriggerType::DamageTaken => "Damage Taken",
            ModifierTriggerType::DamageDealt => "Damage Dealt",
            ModifierTriggerType::HealingTaken => "Healing Taken",
            ModifierTriggerType::HealingDealt => "Healing Dealt",
            ModifierTriggerType::EffectApplied => "Effect Applied",
            ModifierTriggerType::EffectRemoved => "Effect Removed",
            ModifierTriggerType::ChargesChanged => "Charges Changed",
            ModifierTriggerType::SelfChargesChanged => "Self Charges Changed",
            ModifierTriggerType::ResourceSpent => "Resource Spent",
            ModifierTriggerType::KillingBlow => "Killing Blow",
            ModifierTriggerType::AnyOf => "Any Of (OR)",
        }
    }

    /// Every trigger kind, in selector order.
    pub fn all() -> (r: &'static [ModifierTriggerType])
        ensures
            r@ == spec_all(),
    {
        let r: &'static [ModifierTriggerType] = &[
            ModifierTriggerType::AbilityCast,
            ModifierTriggerType::DamageTaken,
            ModifierTriggerType::DamageDealt,
            ModifierTriggerType::HealingTaken,
            ModifierTriggerType::HealingDealt,
            ModifierTriggerType::EffectApplied,
            ModifierTriggerType::EffectRemoved,
            ModifierTriggerType::ChargesChanged,
            ModifierTriggerType::SelfChargesChanged,
            ModifierTriggerType::ResourceSpent,
            ModifierTriggerType::KillingBlow,
            ModifierTriggerType::AnyOf,
        ];
        assert(r@ =~= spec_all());
        r
    }

    /// The kinds allowed inside `AnyOf` (no nesting): all but the last.
    pub fn leaf() -> (r: &'static [ModifierTriggerType])
        ensures
            r@ == spec_all().drop_last(),
    {
        let all = Self::all();
        let (head, _) = all.split_at(all.len() - 1);
        head
    }

    /// The kind whose label is `label`, if any.
    pub fn from_label(label: &str) -> (r: Option<ModifierTriggerType>)
        ensures
            r matches Some(t) ==> spec_label(t) == label@,
            r is None ==> forall|t: ModifierTriggerType| spec_label(t) != label@,
    {
        let all = Self::all();
        let wanted = chars_of(label);
        let mut i: usize = 0;
        while i < all.len()
            invariant
                i <= all.len(),
                all@ == spec_all(),
                wanted@ == label@,
                forall|j: int| 0 <= j < i ==> spec_label(#[trigger] all@[j]) != label@,
            decreases all.len() - i,
        {
            let t = all[i];
            let l = chars_of(t.label());
            if chars_eq(&l, &wanted) {
                return Some(t);
            }
            i = i + 1;
        }
        assert forall|t: ModifierTriggerType| spec_label(t) != label@ by {
            lemma_all_lists_every_kind(t);
            let k = choose|k: int| 0 <= k < spec_all().len() && spec_all()[k] == t;
            assert(spec_label(all@[k]) != label@);
        }
        None
    }
}

/// Every trigger kind is in the selector's list.
pub proof fn lemma_all_lists_every_kind(t: ModifierTriggerType)
    ensures
        exists|k: int| 0 <= k < spec_all().len() && spec_all()[k] == t,
{
    let s = spec_all();
    match t {
        ModifierTriggerType::AbilityCast => assert(s[0] == t),
        ModifierTriggerType::DamageTaken => assert(s[1] == t),
        ModifierTriggerType::DamageDealt => assert(s[2] == t),
        ModifierTriggerType::HealingTaken => assert(s[3] == t),
        ModifierTriggerType::HealingDealt => assert(s[4] == t),
        ModifierTriggerType::EffectApplied => assert(s[5] == t),
        ModifierTriggerType::EffectRemoved => assert(s[6] == t),
        ModifierTriggerType::ChargesChanged => assert(s[7] == t),
        ModifierTriggerType::SelfChargesChanged => assert(s[8] == t),
        ModifierTriggerType::ResourceSpent => assert(s[9] == t),
        ModifierTriggerType::KillingBlow => assert(s[10] == t),
        ModifierTriggerType::AnyOf => assert(s[11] == t),
    }
}

/// Each label names one trigger kind, so choosing a kind by its label gives
/// that kind back.
pub proof fn law_label_round_trip(a: ModifierTriggerType, b: ModifierTriggerType)
    ensures
        spec_label(a) == spec_label(b) ==> a == b,
{
    reveal_strlit("Ability Cast");
    reveal_strlit("Damage Taken");
    reveal_strlit("Damage Dealt");
    reveal_strlit("Healing Taken");
    reveal_strlit("Healing Dealt");
    reveal_strlit("Effect Applied");
    reveal_strlit("Effect Removed");
    reveal_strlit("Charges Changed");
    reveal_strlit("Self Charges Changed");
    reveal_strlit("Resource Spent");
    reveal_strlit("Killing Blow");
    reveal_strlit("Any Of (OR)");
    let la = spec_label(a);
    let lb = spec_label(b);
    if la == lb {
        assert(la.len() == lb.len());
        assert(la[0] == lb[0]);
        assert(la[8] == lb[8]);
    }
}

} // verus!
