//! A compiled policy rule.
use vstd::prelude::*;

use globset::GlobSet;

use crate::bytes::bytes_eq;
use crate::error::SecError;
use crate::glob::{
    glob_matches, glob_new, glob_parses, glob_set_build, glob_set_builder_add, glob_set_builder_new,
    glob_set_builds, glob_set_is_match, glob_set_patterns, star_pattern,
};
use crate::keystore::KeyStore;

verus! {

/// Whether a rule grants or denies access.
#[derive(Clone, Copy, Debug, PartialEq, Eq, Structural)]
pub enum RuleEffect {
    Allow,
    Deny,
}

/// Whether `pattern` compiles into a glob set (`Glob::new` and `build` both succeed).
pub open spec fn glob_compiles(pattern: Seq<char>) -> bool {
    glob_parses(pattern) && glob_set_builds(seq![pattern])
}

/// Whether the object pattern of a rule covers `object_id`: `*` covers every
/// identifier, any other pattern covers what its glob matches.
pub open spec fn object_matches(pattern: Seq<char>, object_id: Seq<char>) -> bool {
    pattern == star_pattern() || glob_matches(pattern, object_id)
}

/// The abstract content of a rule.
pub struct RuleView {
    pub pubkey: Option<Seq<u8>>,
    pub role: Option<Seq<char>>,
    pub pattern: Seq<char>,
    pub effect: RuleEffect,
}

/// Whether rule `r` applies to `pubkey` (whose role, if any, `roles` gives) and
/// to `object_id`: the key, when given, is `pubkey`; the role, when given, is
/// the role of `pubkey`; and the pattern covers `object_id`.
pub open spec fn rule_applies(
    r: RuleView,
    roles: Map<Seq<u8>, Seq<char>>,
    pubkey: Seq<u8>,
    object_id: Seq<char>,
) -> bool {
    &&& (r.pubkey matches Some(k) ==> k == pubkey)
    &&& (r.role matches Some(role) ==> roles.contains_key(pubkey) && roles[pubkey] == role)
    &&& object_matches(r.pattern, object_id)
}

/// A rule: an optional public key, an optional role, an object pattern
/// (compiled into a glob matcher) and an effect.
pub struct Rule {
    pubkey: Option<Vec<u8>>,
    role: Option<String>,
    matcher: GlobSet,
    pattern: String,
    effect: RuleEffect,
}

impl View for Rule {
    type V = RuleView;

    closed spec fn view(&self) -> RuleView {
        RuleView {
            pubkey: match self.pubkey {
                Some(k) => Some(k@),
                None => None,
            },
            role: match self.role {
                Some(r) => Some(r@),
                None => None,
            },
            pattern: self.pattern@,
            effect: self.effect,
        }
    }
}

impl Rule {
    /// The matcher holds exactly the rule's pattern, which compiles.
    pub closed spec fn wf(&self) -> bool {
        &&& glob_set_patterns(self.matcher) == seq![self.pattern@]
        &&& glob_compiles(self.pattern@)
    }

    /// The pattern of a well-formed rule compiles.
    pub proof fn lemma_pattern_compiles(&self)
        requires
            self.wf(),
        ensures
            glob_compiles(self@.pattern),
    {
    }

    /// Compiles `pattern` and builds the rule. Fails when the pattern does not compile.
    pub fn new(pubkey: Option<Vec<u8>>, role: Option<String>, pattern: String, effect: RuleEffect) -> (r: Result<Rule, SecError>)
        ensures
            r is Ok <==> glob_compiles(pattern@),
            pattern@ == star_pattern() ==> r is Ok,
            r matches Err(e) ==> e == SecError::InvalidGlob,
            r matches Ok(rule) ==> rule.wf() && rule@ == (RuleView {
                pubkey: match pubkey {
                    Some(k) => Some(k@),
                    None => None,
                },
                role: match role {
                    Some(s) => Some(s@),
                    None => None,
                },
                pattern: pattern@,
                effect,
            }),
    {
        let glob = match glob_new(pattern.as_str()) {
            Ok(g) => g,
            Err(_) => return Err(SecError::InvalidGlob),
        };
        let mut builder = glob_set_builder_new();
        glob_set_builder_add(&mut builder, glob);
        assert(seq![pattern@] =~= Seq::<Seq<char>>::empty().push(pattern@));
        let matcher = match glob_set_build(&builder) {
            Ok(m) => m,
            Err(_) => return Err(SecError::InvalidGlob),
        };
        Ok(Rule { pubkey, role, matcher, pattern, effect })
    }

    /// The same rule, restricted to `pubkey` instead.
    pub fn with_pubkey(self, pubkey: Option<Vec<u8>>) -> (r: Rule)
        requires
            self.wf(),
        ensures
            r.wf(),
            r@ == (RuleView {
                pubkey: match pubkey {
                    Some(k) => Some(k@),
                    None => None,
                },
                ..self@
            }),
    {
        Rule { pubkey, ..self }
    }

    /// The public key the rule is restricted to, if any.
    pub fn pubkey(&self) -> (r: &Option<Vec<u8>>)
        ensures
            self@.pubkey == match *r {
                Some(k) => Some(k@),
                None => None,
            },
    {
        &self.pubkey
    }

    /// The role the rule is restricted to, if any.
    pub fn role(&self) -> (r: &Option<String>)
        ensures
            self@.role == match *r {
                Some(s) => Some(s@),
                None => None,
            },
    {
        &self.role
    }

    /// The object pattern of the rule.
    pub fn pattern(&self) -> (r: &String)
        ensures
            r@ == self@.pattern,
    {
        &self.pattern
    }

    /// The effect of the rule.
    pub fn effect(&self) -> (r: RuleEffect)
        ensures
            r == self@.effect,
    {
        self.effect
    }

    /// Whether the rule applies to `pubkey` and `object_id`, roles taken from `ks`.
    pub fn matches(&self, ks: &KeyStore, pubkey: &[u8], object_id: &str) -> (r: bool)
        requires
            self.wf(),
            ks.wf(),
        ensures
            r == rule_applies(self@, ks.roles(), pubkey@, object_id@),
    {
        match &self.pubkey {
            Some(k) => {
                if !bytes_eq(k.as_slice(), pubkey) {
                    return false;
                }
            },
            None => {},
        }
        match &self.role {
            Some(role) => {
                match ks.get_role(pubkey) {
                    Some(r) => {
                        if !String::from_str(r).eq(role) {
                            return false;
                        }
                    },
                    None => {
                        return false;
                    },
                }
            },
            None => {},
        }
        let m = glob_set_is_match(&self.matcher, object_id);
        proof {
            let ps = glob_set_patterns(self.matcher);
            assert(ps[0] == self.pattern@);
            if self.pattern@ == star_pattern() {
                assert(ps.contains(star_pattern()));
            }
            if glob_matches(self.pattern@, object_id@) {
                assert((|p: Seq<char>| glob_matches(p, object_id@))(ps[0]));
            }
        }
        m
    }
}

} // verus!
