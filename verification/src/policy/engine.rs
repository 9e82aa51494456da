//! The policy engine: deny-first evaluation of compiled rules.
use vstd::prelude::*;

use crate::crypto::{base64_decode, base64_decoding, base64_encode, base64_encoding};
use crate::error::SecError;
use crate::glob::star_pattern;
use crate::keystore::KeyStore;
use crate::policy::rule::{glob_compiles, rule_applies, Rule, RuleEffect, RuleView};

verus! {

/// Whether some rule with effect `effect` applies to `pubkey` and `object_id`.
pub open spec fn some_rule_applies(
    rules: Seq<RuleView>,
    effect: RuleEffect,
    roles: Map<Seq<u8>, Seq<char>>,
    pubkey: Seq<u8>,
    object_id: Seq<char>,
) -> bool {
    exists|i: int|
        0 <= i < rules.len() && rules[i].effect == effect && #[trigger] rule_applies(
            rules[i],
            roles,
            pubkey,
            object_id,
        )
}

/// Deny-first evaluation: `pubkey` may change `object_id` when no deny rule
/// applies and some allow rule does.
pub open spec fn policy_allows(
    rules: Seq<RuleView>,
    roles: Map<Seq<u8>, Seq<char>>,
    pubkey: Seq<u8>,
    object_id: Seq<char>,
) -> bool {
    &&& !some_rule_applies(rules, RuleEffect::Deny, roles, pubkey, object_id)
    &&& some_rule_applies(rules, RuleEffect::Allow, roles, pubkey, object_id)
}

/// A rule as it is exported: effect, base64 public key, role and object pattern.
pub struct PolicyRuleDef {
    pub effect: RuleEffect,
    pub key: Option<String>,
    pub role: Option<String>,
    pub objects: String,
}

/// The view of an exported rule.
pub open spec fn policy_rule_def_view(d: PolicyRuleDef) -> (RuleEffect, Option<Seq<char>>, Option<Seq<char>>, Seq<char>) {
    (
        d.effect,
        match d.key {
            Some(k) => Some(k@),
            None => None,
        },
        match d.role {
            Some(r) => Some(r@),
            None => None,
        },
        d.objects@,
    )
}

/// The export of one rule.
pub open spec fn export_rule(r: RuleView) -> (RuleEffect, Option<Seq<char>>, Option<Seq<char>>, Seq<char>) {
    (
        r.effect,
        match r.pubkey {
            Some(k) => Some(base64_encoding(k)),
            None => None,
        },
        r.role,
        r.pattern,
    )
}

/// Loading exported rules in order: the key of each is decoded first, then its
/// pattern compiled; the first failure is the result.
pub open spec fn load_policy_config(
    ds: Seq<(RuleEffect, Option<Seq<char>>, Option<Seq<char>>, Seq<char>)>,
) -> Result<Seq<RuleView>, SecError>
    decreases ds.len(),
{
    if ds.len() == 0 {
        Ok(seq![])
    } else {
        match load_policy_config(ds.drop_last()) {
            Err(e) => Err(e),
            Ok(rs) => {
                let (effect, key, role, objects) = ds.last();
                let pubkey = match key {
                    None => Some(None),
                    Some(t) => match base64_decoding(t) {
                        None => None,
                        Some(k) => Some(Some(k)),
                    },
                };
                match pubkey {
                    None => Err(SecError::InvalidBase64),
                    Some(pk) => if glob_compiles(objects) {
                        Ok(rs.push(RuleView { pubkey: pk, role, pattern: objects, effect }))
                    } else {
                        Err(SecError::InvalidGlob)
                    },
                }
            },
        }
    }
}

/// Policy engine holding compiled rules for object-level access control.
///
/// Rules are applied with deny-first semantics: any applying deny rule blocks
/// access; otherwise an applying allow rule grants it; otherwise access is denied.
pub struct PolicyEngine {
    pub rules: Vec<Rule>,
}

impl PolicyEngine {
    /// The views of the rules, in order.
    pub open spec fn rule_views(&self) -> Seq<RuleView> {
        self.rules@.map_values(|r: Rule| r@)
    }

    /// Every rule is well formed.
    pub open spec fn wf(&self) -> bool {
        forall|i: int| 0 <= i < self.rules@.len() ==> (#[trigger] self.rules@[i]).wf()
    }

    /// An engine without rules, which denies everything.
    pub fn new() -> (r: PolicyEngine)
        ensures
            r.wf(),
            r.rule_views() == Seq::<RuleView>::empty(),
    {
        let r = PolicyEngine { rules: Vec::new() };
        assert(r.rule_views() =~= Seq::<RuleView>::empty());
        r
    }

    /// Whether `pubkey` (with its role in `ks`) may change `object_id`.
    pub fn allows(&self, ks: &KeyStore, pubkey: &[u8], object_id: &str) -> (r: bool)
        requires
            self.wf(),
            ks.wf(),
        ensures
            r == policy_allows(self.rule_views(), ks.roles(), pubkey@, object_id@),
    {
        let ghost rs = self.rule_views();
        let mut i: usize = 0;
        while i < self.rules.len()
            invariant
                self.wf(),
                ks.wf(),
                rs == self.rule_views(),
                i <= self.rules@.len(),
                forall|j: int|
                    0 <= j < i ==> !(rs[j].effect == RuleEffect::Deny && #[trigger] rule_applies(
                        rs[j],
                        ks.roles(),
                        pubkey@,
                        object_id@,
                    )),
            decreases self.rules@.len() - i,
        {
            let rule = &self.rules[i];
            assert(rs[i as int] == rule@);
            if rule.effect() == RuleEffect::Deny && rule.matches(ks, pubkey, object_id) {
                return false;
            }
            i = i + 1;
        }
        let mut i: usize = 0;
        while i < self.rules.len()
            invariant
                self.wf(),
                ks.wf(),
                rs == self.rule_views(),
                !some_rule_applies(rs, RuleEffect::Deny, ks.roles(), pubkey@, object_id@),
                i <= self.rules@.len(),
                forall|j: int|
                    0 <= j < i ==> !(rs[j].effect == RuleEffect::Allow && #[trigger] rule_applies(
                        rs[j],
                        ks.roles(),
                        pubkey@,
                        object_id@,
                    )),
            decreases self.rules@.len() - i,
        {
            let rule = &self.rules[i];
            assert(rs[i as int] == rule@);
            if rule.effect() == RuleEffect::Allow && rule.matches(ks, pubkey, object_id) {
                return true;
            }
            i = i + 1;
        }
        false
    }

    /// Appends a well-formed rule.
    pub fn push_rule(&mut self, rule: Rule)
        requires
            old(self).wf(),
            rule.wf(),
        ensures
            final(self).wf(),
            final(self).rule_views() == old(self).rule_views().push(rule@),
    {
        let ghost before = self.rules@;
        self.rules.push(rule);
        proof {
            before.lemma_push_map_commute(|r: Rule| r@, rule);
        }
    }

    /// Compiles a rule and appends it. Fails, changing nothing, when the
    /// pattern does not compile.
    pub fn add_rule(
        &mut self,
        pubkey: Option<Vec<u8>>,
        role: Option<String>,
        pattern: String,
        effect: RuleEffect,
    ) -> (r: Result<(), SecError>)
        requires
            old(self).wf(),
        ensures
            final(self).wf(),
            r is Ok <==> glob_compiles(pattern@),
            pattern@ == star_pattern() ==> r is Ok,
            r matches Err(e) ==> e == SecError::InvalidGlob,
            final(self).rule_views() == (if r is Ok {
                old(self).rule_views().push(
                    RuleView {
                        pubkey: match pubkey {
                            Some(k) => Some(k@),
                            None => None,
                        },
                        role: match role {
                            Some(s) => Some(s@),
                            None => None,
                        },
                        pattern: pattern@,
                        effect,
                    },
                )
            } else {
                old(self).rule_views()
            }),
    {
        let rule = Rule::new(pubkey, role, pattern, effect)?;
        self.push_rule(rule);
        Ok(())
    }

    /// The rules as they are exported, in order. Loading them gives back the rules.
    pub fn to_config(&self) -> (r: Vec<PolicyRuleDef>)
        requires
            self.wf(),
            forall|i: int|
                0 <= i < self.rules@.len() ==> ((#[trigger] self.rule_views()[i]).pubkey matches Some(k)
                    ==> k.len() <= usize::MAX / 4 * 3),
        ensures
            r@.map_values(|d: PolicyRuleDef| policy_rule_def_view(d)) == self.rule_views().map_values(
                |v: RuleView| export_rule(v),
            ),
            load_policy_config(r@.map_values(|d: PolicyRuleDef| policy_rule_def_view(d)))
                == Ok::<_, SecError>(self.rule_views()),
    {
        let ghost rs = self.rule_views();
        let mut out: Vec<PolicyRuleDef> = Vec::new();
        let mut i: usize = 0;
        proof {
            assert(out@.map_values(|d: PolicyRuleDef| policy_rule_def_view(d)) =~= Seq::empty());
            assert(rs.subrange(0, 0) =~= Seq::<RuleView>::empty());
            assert(rs.map_values(|v: RuleView| export_rule(v)).subrange(0, 0) =~= Seq::empty());
        }
        while i < self.rules.len()
            invariant
                self.wf(),
                rs == self.rule_views(),
                forall|j: int|
                    0 <= j < self.rules@.len() ==> ((#[trigger] self.rule_views()[j]).pubkey matches Some(k)
                        ==> k.len() <= usize::MAX / 4 * 3),
                i <= self.rules@.len(),
                out@.map_values(|d: PolicyRuleDef| policy_rule_def_view(d)) == rs.map_values(
                    |v: RuleView| export_rule(v),
                ).subrange(0, i as int),
                load_policy_config(out@.map_values(|d: PolicyRuleDef| policy_rule_def_view(d)))
                    == Ok::<_, SecError>(rs.subrange(0, i as int)),
            decreases self.rules@.len() - i,
        {
            let rule = &self.rules[i];
            assert(rs[i as int] == rule@);
            let key = match rule.pubkey() {
                Some(k) => Some(base64_encode(k.as_slice())),
                None => None,
            };
            let role = match rule.role() {
                Some(s) => Some(s.clone()),
                None => None,
            };
            let def = PolicyRuleDef {
                effect: rule.effect(),
                key,
                role,
                objects: rule.pattern().clone(),
            };
            let ghost before = out@;
            out.push(def);
            proof {
                let f = |d: PolicyRuleDef| policy_rule_def_view(d);
                before.lemma_push_map_commute(f, def);
                let ds = out@.map_values(f);
                assert(ds.drop_last() =~= before.map_values(f));
                assert(ds =~= rs.map_values(|v: RuleView| export_rule(v)).subrange(0, i + 1));
                assert(rs.subrange(0, i + 1) =~= rs.subrange(0, i as int).push(rs[i as int]));
                rule.lemma_pattern_compiles();
            }
            i = i + 1;
        }
        proof {
            assert(rs.subrange(0, i as int) =~= rs);
            assert(rs.map_values(|v: RuleView| export_rule(v)).subrange(0, i as int) =~= rs.map_values(
                |v: RuleView| export_rule(v),
            ));
        }
        out
    }

    /// An engine with the exported rules `defs`, or the first error in loading them.
    pub fn from_config(defs: &Vec<PolicyRuleDef>) -> (r: Result<PolicyEngine, SecError>)
        ensures
            r matches Ok(p) ==> p.wf() && load_policy_config(
                defs@.map_values(|d: PolicyRuleDef| policy_rule_def_view(d)),
            ) == Ok::<_, SecError>(p.rule_views()),
            r matches Err(e) ==> load_policy_config(defs@.map_values(|d: PolicyRuleDef| policy_rule_def_view(d)))
                == Err::<Seq<RuleView>, SecError>(e),
    {
        let ghost ds = defs@.map_values(|d: PolicyRuleDef| policy_rule_def_view(d));
        let mut engine = PolicyEngine::new();
        let mut i: usize = 0;
        while i < defs.len()
            invariant
                ds == defs@.map_values(|d: PolicyRuleDef| policy_rule_def_view(d)),
                i <= defs@.len(),
                engine.wf(),
                load_policy_config(ds.subrange(0, i as int)) == Ok::<_, SecError>(engine.rule_views()),
            decreases defs@.len() - i,
        {
            let def = &defs[i];
            proof {
                assert(ds.subrange(0, i + 1).drop_last() =~= ds.subrange(0, i as int));
                assert(ds.subrange(0, i + 1).last() == policy_rule_def_view(*def));
            }
            let pubkey = match &def.key {
                Some(k) => match base64_decode(k.as_str()) {
                    Some(b) => Some(b),
                    None => {
                        proof {
                            lemma_load_policy_prefix_error(ds, i as int + 1);
                        }
                        return Err(SecError::InvalidBase64);
                    },
                },
                None => None,
            };
            let role = match &def.role {
                Some(s) => Some(s.clone()),
                None => None,
            };
            match engine.add_rule(pubkey, role, def.objects.clone(), def.effect) {
                Ok(()) => {},
                Err(e) => {
                    proof {
                        lemma_load_policy_prefix_error(ds, i as int + 1);
                    }
                    return Err(e);
                },
            }
            i = i + 1;
        }
        assert(ds.subrange(0, i as int) =~= ds);
        Ok(engine)
    }
}

/// Once loading a prefix of the exported rules fails, loading them all fails the same way.
proof fn lemma_load_policy_prefix_error(
    ds: Seq<(RuleEffect, Option<Seq<char>>, Option<Seq<char>>, Seq<char>)>,
    n: int,
)
    requires
        0 <= n <= ds.len(),
        load_policy_config(ds.subrange(0, n)) is Err,
    ensures
        load_policy_config(ds) == load_policy_config(ds.subrange(0, n)),
    decreases ds.len() - n,
{
    if n < ds.len() {
        assert(ds.subrange(0, n + 1).drop_last() =~= ds.subrange(0, n));
        lemma_load_policy_prefix_error(ds, n + 1);
    } else {
        assert(ds.subrange(0, n) =~= ds);
    }
}

impl Default for PolicyEngine {
    fn default() -> (r: PolicyEngine)
        ensures
            r.wf(),
            r.rule_views() == Seq::<RuleView>::empty(),
    {
        PolicyEngine::new()
    }
}

/// An applying deny rule blocks access, whatever else applies.
pub proof fn lemma_deny_takes_precedence(
    rules: Seq<RuleView>,
    roles: Map<Seq<u8>, Seq<char>>,
    pubkey: Seq<u8>,
    object_id: Seq<char>,
    i: int,
)
    requires
        0 <= i < rules.len(),
        rules[i].effect == RuleEffect::Deny,
        rule_applies(rules[i], roles, pubkey, object_id),
    ensures
        !policy_allows(rules, roles, pubkey, object_id),
{
}

/// When no deny rule applies, an applying allow rule grants access.
pub proof fn lemma_allow_grants(
    rules: Seq<RuleView>,
    roles: Map<Seq<u8>, Seq<char>>,
    pubkey: Seq<u8>,
    object_id: Seq<char>,
    i: int,
)
    requires
        0 <= i < rules.len(),
        rules[i].effect == RuleEffect::Allow,
        rule_applies(rules[i], roles, pubkey, object_id),
        !some_rule_applies(rules, RuleEffect::Deny, roles, pubkey, object_id),
    ensures
        policy_allows(rules, roles, pubkey, object_id),
{
}

/// Without an applying allow rule, access is denied (default deny); an engine
/// without rules denies everything.
pub proof fn lemma_default_deny(
    rules: Seq<RuleView>,
    roles: Map<Seq<u8>, Seq<char>>,
    pubkey: Seq<u8>,
    object_id: Seq<char>,
)
    requires
        !some_rule_applies(rules, RuleEffect::Allow, roles, pubkey, object_id),
    ensures
        !policy_allows(rules, roles, pubkey, object_id),
        !policy_allows(Seq::<RuleView>::empty(), roles, pubkey, object_id),
{
}

/// A rule with a public key applies only to that key; a rule with a role only
/// to keys that have that role.
pub proof fn lemma_rule_restrictions(
    r: RuleView,
    roles: Map<Seq<u8>, Seq<char>>,
    pubkey: Seq<u8>,
    object_id: Seq<char>,
)
    requires
        rule_applies(r, roles, pubkey, object_id),
    ensures
        r.pubkey matches Some(k) ==> k == pubkey,
        r.role matches Some(role) ==> roles.contains_key(pubkey) && roles[pubkey] == role,
{
}

} // verus!
