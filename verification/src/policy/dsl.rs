//! The rule DSL: rule definitions as the YAML policy format writes them.
//!
//! A policy document holds a list of entries, each with an optional `allow`
//! and an optional `deny` definition. A definition has an optional base64
//! `key`, an optional `role` and an `objects` glob pattern. Entries are
//! compiled in order, the `allow` definition of an entry before its `deny`.
use vstd::prelude::*;

use crate::crypto::{base64_decode, base64_decoding};
use crate::error::SecError;
use crate::glob::star_pattern;
use crate::policy::engine::{policy_allows, some_rule_applies, PolicyEngine};
use crate::policy::rule::{glob_compiles, object_matches, rule_applies, Rule, RuleEffect, RuleView};

verus! {

/// One rule definition: optional base64 key, optional role, object pattern.
pub struct RuleDef {
    pub key: Option<String>,
    pub role: Option<String>,
    pub objects: String,
}

/// One entry of a policy document.
pub struct RawRule {
    pub allow: Option<RuleDef>,
    pub deny: Option<RuleDef>,
}

/// The view of a rule definition.
pub open spec fn rule_def_view(d: RuleDef) -> (Option<Seq<char>>, Option<Seq<char>>, Seq<char>) {
    (
        match d.key {
            Some(k) => Some(k@),
            None => None,
        },
        match d.role {
            Some(r) => Some(r@),
            None => None,
        },
        d.objects@,
    )
}

/// The definitions of one entry with their effects: `allow` first, then `deny`.
pub open spec fn raw_rule_defs(r: RawRule) -> Seq<((Option<Seq<char>>, Option<Seq<char>>, Seq<char>), RuleEffect)> {
    (match r.allow {
        Some(d) => seq![(rule_def_view(d), RuleEffect::Allow)],
        None => seq![],
    }) + (match r.deny {
        Some(d) => seq![(rule_def_view(d), RuleEffect::Deny)],
        None => seq![],
    })
}

/// The definitions of a document, in order.
pub open spec fn flatten_raw_rules(rs: Seq<RawRule>) -> Seq<((Option<Seq<char>>, Option<Seq<char>>, Seq<char>), RuleEffect)>
    decreases rs.len(),
{
    if rs.len() == 0 {
        seq![]
    } else {
        flatten_raw_rules(rs.drop_last()) + raw_rule_defs(rs.last())
    }
}

/// Compiling one definition: the pattern first, then the base64 key.
pub open spec fn compile_def(d: (Option<Seq<char>>, Option<Seq<char>>, Seq<char>), effect: RuleEffect) -> Result<RuleView, SecError> {
    let (key, role, objects) = d;
    if !glob_compiles(objects) {
        Err(SecError::InvalidGlob)
    } else {
        match key {
            None => Ok(RuleView { pubkey: None, role, pattern: objects, effect }),
            Some(t) => match base64_decoding(t) {
                None => Err(SecError::InvalidBase64),
                Some(k) => Ok(RuleView { pubkey: Some(k), role, pattern: objects, effect }),
            },
        }
    }
}

/// Compiling definitions in order: the rules compiled before the first
/// failure, and that failure, if any.
pub open spec fn compile_defs(ds: Seq<((Option<Seq<char>>, Option<Seq<char>>, Seq<char>), RuleEffect)>) -> (Seq<RuleView>, Option<SecError>)
    decreases ds.len(),
{
    if ds.len() == 0 {
        (seq![], None)
    } else {
        let (prev, err) = compile_defs(ds.drop_last());
        if err is Some {
            (prev, err)
        } else {
            match compile_def(ds.last().0, ds.last().1) {
                Ok(rv) => (prev.push(rv), None),
                Err(e) => (prev, Some(e)),
            }
        }
    }
}

/// The rule that `allow_all` adds: allow anyone every object.
pub open spec fn allow_all_rule() -> RuleView {
    RuleView { pubkey: None, role: None, pattern: star_pattern(), effect: RuleEffect::Allow }
}

proof fn lemma_compile_defs_push(
    ds: Seq<((Option<Seq<char>>, Option<Seq<char>>, Seq<char>), RuleEffect)>,
    x: ((Option<Seq<char>>, Option<Seq<char>>, Seq<char>), RuleEffect),
)
    ensures
        compile_defs(ds.push(x)) == (if compile_defs(ds).1 is Some {
            compile_defs(ds)
        } else {
            match compile_def(x.0, x.1) {
                Ok(rv) => (compile_defs(ds).0.push(rv), None),
                Err(e) => (compile_defs(ds).0, Some(e)),
            }
        }),
{
    assert(ds.push(x).drop_last() =~= ds);
}

impl PolicyEngine {
    /// Compiles one definition and appends the rule. Fails, changing nothing,
    /// with the error `compile_def` names.
    pub fn add_rule_from_def(&mut self, def: &RuleDef, effect: RuleEffect) -> (r: Result<(), SecError>)
        requires
            old(self).wf(),
        ensures
            final(self).wf(),
            match compile_def(rule_def_view(*def), effect) {
                Ok(rv) => r is Ok && final(self).rule_views() == old(self).rule_views().push(rv),
                Err(e) => r == Err::<(), SecError>(e) && final(self).rule_views() == old(self).rule_views(),
            },
    {
        let rule = Rule::new(None, def.role.clone(), def.objects.clone(), effect)?;
        let pubkey = match &def.key {
            Some(k) => match base64_decode(k.as_str()) {
                Some(b) => Some(b),
                None => return Err(SecError::InvalidBase64),
            },
            None => None,
        };
        let rule = rule.with_pubkey(pubkey);
        self.push_rule(rule);
        Ok(())
    }

    /// Compiles the definitions of `rules` in order and appends them. On the
    /// first failure it stops: the rules compiled before it stay.
    pub fn parse_rules(&mut self, rules: &Vec<RawRule>) -> (r: Result<(), SecError>)
        requires
            old(self).wf(),
        ensures
            final(self).wf(),
            final(self).rule_views() == old(self).rule_views() + compile_defs(flatten_raw_rules(rules@)).0,
            r == (match compile_defs(flatten_raw_rules(rules@)).1 {
                None => Ok::<(), SecError>(()),
                Some(e) => Err(e),
            }),
    {
        let ghost start = self.rule_views();
        let mut i: usize = 0;
        proof {
            assert(flatten_raw_rules(rules@.subrange(0, 0)) =~= seq![]);
            assert(start + Seq::<RuleView>::empty() =~= start);
        }
        while i < rules.len()
            invariant
                self.wf(),
                start == old(self).rule_views(),
                i <= rules@.len(),
                compile_defs(flatten_raw_rules(rules@.subrange(0, i as int))).1 is None,
                self.rule_views() == start + compile_defs(flatten_raw_rules(rules@.subrange(0, i as int))).0,
            decreases rules@.len() - i,
        {
            let raw = &rules[i];
            let ghost pre = flatten_raw_rules(rules@.subrange(0, i as int));
            proof {
                assert(rules@.subrange(0, i + 1).drop_last() =~= rules@.subrange(0, i as int));
                assert(flatten_raw_rules(rules@.subrange(0, i + 1)) == pre + raw_rule_defs(*raw));
            }
            let ghost mid = match &raw.allow {
                Some(d) => pre.push((rule_def_view(*d), RuleEffect::Allow)),
                None => pre,
            };
            match &raw.allow {
                Some(def) => {
                    let ghost before = self.rule_views();
                    proof {
                        lemma_compile_defs_push(pre, (rule_def_view(*def), RuleEffect::Allow));
                    }
                    match self.add_rule_from_def(def, RuleEffect::Allow) {
                        Ok(()) => {
                            assert(self.rule_views() =~= start + compile_defs(mid).0);
                        },
                        Err(e) => {
                            proof {
                                assert(self.rule_views() =~= start + compile_defs(mid).0);
                                lemma_flatten_prefix(rules@, i as int);
                                let whole = flatten_raw_rules(rules@);
                                let next = flatten_raw_rules(rules@.subrange(0, i + 1));
                                assert(mid =~= next.subrange(0, mid.len() as int));
                                assert(mid =~= whole.subrange(0, mid.len() as int));
                                lemma_compile_defs_error_sticks(mid, whole);
                            }
                            return Err(e);
                        },
                    }
                },
                None => {},
            }
            let ghost fin = match &raw.deny {
                Some(d) => mid.push((rule_def_view(*d), RuleEffect::Deny)),
                None => mid,
            };
            proof {
                assert(fin =~= pre + raw_rule_defs(*raw));
            }
            match &raw.deny {
                Some(def) => {
                    proof {
                        lemma_compile_defs_push(mid, (rule_def_view(*def), RuleEffect::Deny));
                    }
                    match self.add_rule_from_def(def, RuleEffect::Deny) {
                        Ok(()) => {
                            assert(self.rule_views() =~= start + compile_defs(fin).0);
                        },
                        Err(e) => {
                            proof {
                                assert(self.rule_views() =~= start + compile_defs(fin).0);
                                lemma_flatten_prefix(rules@, i as int);
                                let whole = flatten_raw_rules(rules@);
                                let next = flatten_raw_rules(rules@.subrange(0, i + 1));
                                assert(fin =~= next.subrange(0, fin.len() as int));
                                assert(fin =~= whole.subrange(0, fin.len() as int));
                                lemma_compile_defs_error_sticks(fin, whole);
                            }
                            return Err(e);
                        },
                    }
                },
                None => {},
            }
            i = i + 1;
        }
        proof {
            assert(rules@.subrange(0, i as int) =~= rules@);
        }
        Ok(())
    }

    /// A new engine with the rules of a policy document.
    pub fn from_raw_rules(rules: &Vec<RawRule>) -> (r: Result<PolicyEngine, SecError>)
        ensures
            r matches Ok(p) ==> p.wf() && compile_defs(flatten_raw_rules(rules@)).1 is None
                && p.rule_views() == compile_defs(flatten_raw_rules(rules@)).0,
            r matches Err(e) ==> compile_defs(flatten_raw_rules(rules@)).1 == Some(e),
    {
        let mut engine = PolicyEngine::new();
        engine.parse_rules(rules)?;
        assert(engine.rule_views() =~= compile_defs(flatten_raw_rules(rules@)).0);
        Ok(engine)
    }

    /// Adds a rule that allows anyone to change every object; deny rules still apply.
    pub fn allow_all(&mut self)
        requires
            old(self).wf(),
        ensures
            final(self).wf(),
            final(self).rule_views() == old(self).rule_views().push(allow_all_rule()),
    {
        let pattern = String::from_str("*");
        proof {
            reveal_strlit("*");
            assert(pattern@ =~= star_pattern());
        }
        let r = self.add_rule(None, None, pattern, RuleEffect::Allow);
    }
}

/// After `allow_all`, every key may change every object that no deny rule covers for it.
pub proof fn lemma_allow_all_grants(
    rules: Seq<RuleView>,
    roles: Map<Seq<u8>, Seq<char>>,
    pubkey: Seq<u8>,
    object_id: Seq<char>,
)
    requires
        !some_rule_applies(rules, RuleEffect::Deny, roles, pubkey, object_id),
    ensures
        policy_allows(rules.push(allow_all_rule()), roles, pubkey, object_id),
{
    let all = rules.push(allow_all_rule());
    assert(all[rules.len() as int] == allow_all_rule());
    assert(rule_applies(all[rules.len() as int], roles, pubkey, object_id));
    assert forall|i: int| 0 <= i < all.len() && all[i].effect == RuleEffect::Deny implies !#[trigger] rule_applies(
        all[i],
        roles,
        pubkey,
        object_id,
    ) by {
        if i < rules.len() {
            assert(all[i] == rules[i]);
        }
    }
}

/// The definitions of a prefix of a document are a prefix of its definitions.
proof fn lemma_flatten_prefix(rs: Seq<RawRule>, i: int)
    requires
        0 <= i < rs.len(),
    ensures
        flatten_raw_rules(rs.subrange(0, i + 1)).is_prefix_of(flatten_raw_rules(rs)),
    decreases rs.len() - i,
{
    if i + 1 == rs.len() {
        assert(rs.subrange(0, i + 1) =~= rs);
        assert(flatten_raw_rules(rs).subrange(0, flatten_raw_rules(rs).len() as int) =~= flatten_raw_rules(rs));
    } else {
        lemma_flatten_prefix(rs, i + 1);
        assert(rs.subrange(0, i + 2).drop_last() =~= rs.subrange(0, i + 1));
        let a = flatten_raw_rules(rs.subrange(0, i + 1));
        let b = flatten_raw_rules(rs.subrange(0, i + 2));
        assert(b == a + raw_rule_defs(rs[i + 1]));
        assert(a =~= b.subrange(0, a.len() as int));
    }
}

/// Once compiling a prefix fails, compiling any extension fails the same way.
proof fn lemma_compile_defs_error_sticks(
    pre: Seq<((Option<Seq<char>>, Option<Seq<char>>, Seq<char>), RuleEffect)>,
    all: Seq<((Option<Seq<char>>, Option<Seq<char>>, Seq<char>), RuleEffect)>,
)
    requires
        compile_defs(pre).1 is Some,
        pre.is_prefix_of(all),
    ensures
        compile_defs(all) == compile_defs(pre),
    decreases all.len(),
{
    if all.len() == pre.len() {
        assert(all =~= pre);
    } else {
        let shorter = all.drop_last();
        assert(pre =~= shorter.subrange(0, pre.len() as int));
        lemma_compile_defs_error_sticks(pre, shorter);
    }
}

/// Compiling a definition keeps what it restricts: the compiled rule has the
/// definition's effect, role and object pattern, and its key is the decoded
/// base64 key of the definition (none when the definition names none).
/// Compiling succeeds exactly when the pattern compiles and the key, if any,
/// is valid base64.
pub proof fn lemma_compiled_definition_keeps_restrictions(
    d: (Option<Seq<char>>, Option<Seq<char>>, Seq<char>),
    effect: RuleEffect,
)
    ensures
        compile_def(d, effect) is Ok <==> (glob_compiles(d.2) && (d.0 matches Some(t) ==> base64_decoding(t) is Some)),
        compile_def(d, effect) matches Ok(rv) ==> {
            &&& rv.effect == effect
            &&& rv.role == d.1
            &&& rv.pattern == d.2
            &&& (d.0 is None ==> rv.pubkey is None)
            &&& (d.0 matches Some(t) ==> rv.pubkey == base64_decoding(t))
        },
{
}

/// The rules compiled from definitions stand, in order, for a prefix of the
/// definitions: rule `i` is what definition `i` compiles to, and all of them
/// compile when no failure is reported.
proof fn lemma_compile_defs_aligned(ds: Seq<((Option<Seq<char>>, Option<Seq<char>>, Seq<char>), RuleEffect)>)
    ensures
        compile_defs(ds).0.len() <= ds.len(),
        compile_defs(ds).1 is None ==> compile_defs(ds).0.len() == ds.len(),
        forall|i: int|
            0 <= i < compile_defs(ds).0.len() ==> compile_def(ds[i].0, ds[i].1) == Ok::<RuleView, SecError>(
                #[trigger] compile_defs(ds).0[i],
            ),
    decreases ds.len(),
{
    if ds.len() > 0 {
        let pre = ds.drop_last();
        lemma_compile_defs_aligned(pre);
        assert forall|i: int| 0 <= i < pre.len() implies pre[i] == ds[i] by {}
    }
}

/// A policy document grants access only through one of its allow
/// definitions: when the compiled rules let `pubkey` change `object_id`, some
/// allow definition of the document covers that request, that is its key,
/// if any, decodes to `pubkey`, its role, if any, is the role the key store
/// gives `pubkey`, and its pattern covers `object_id`.
pub proof fn lemma_access_granted_by_allow_definition(
    rs: Seq<RawRule>,
    roles: Map<Seq<u8>, Seq<char>>,
    pubkey: Seq<u8>,
    object_id: Seq<char>,
)
    requires
        policy_allows(compile_defs(flatten_raw_rules(rs)).0, roles, pubkey, object_id),
    ensures
        exists|j: int|
            0 <= j < flatten_raw_rules(rs).len() && {
                let (d, effect) = #[trigger] flatten_raw_rules(rs)[j];
                &&& effect == RuleEffect::Allow
                &&& (d.0 matches Some(t) ==> base64_decoding(t) == Some(pubkey))
                &&& (d.1 matches Some(role) ==> roles.contains_key(pubkey) && roles[pubkey] == role)
                &&& object_matches(d.2, object_id)
            },
{
    let ds = flatten_raw_rules(rs);
    let rules = compile_defs(ds).0;
    lemma_compile_defs_aligned(ds);
    let i = choose|i: int|
        0 <= i < rules.len() && rules[i].effect == RuleEffect::Allow && #[trigger] rule_applies(
            rules[i],
            roles,
            pubkey,
            object_id,
        );
    assert(compile_def(ds[i].0, ds[i].1) == Ok::<RuleView, SecError>(rules[i]));
    let (d, effect) = ds[i];
    assert(effect == RuleEffect::Allow);
    assert(d.1 matches Some(role) ==> roles.contains_key(pubkey) && roles[pubkey] == role);
}

/// A document whose allow definitions all name the role `role` grants nothing
/// to a key that the key store does not give that role: such a key may change
/// no object, whatever its other rules.
pub proof fn lemma_role_rules_admit_only_that_role(
    rs: Seq<RawRule>,
    role: Seq<char>,
    roles: Map<Seq<u8>, Seq<char>>,
    pubkey: Seq<u8>,
    object_id: Seq<char>,
)
    requires
        forall|j: int|
            0 <= j < flatten_raw_rules(rs).len() && (#[trigger] flatten_raw_rules(rs)[j]).1 == RuleEffect::Allow
                ==> flatten_raw_rules(rs)[j].0.1 == Some(role),
        !(roles.contains_key(pubkey) && roles[pubkey] == role),
    ensures
        !policy_allows(compile_defs(flatten_raw_rules(rs)).0, roles, pubkey, object_id),
{
    if policy_allows(compile_defs(flatten_raw_rules(rs)).0, roles, pubkey, object_id) {
        lemma_access_granted_by_allow_definition(rs, roles, pubkey, object_id);
    }
}

} // verus!
