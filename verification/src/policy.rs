//! Policy rules (RBAC/ABAC) and the policy engine that decides access.

use vstd::prelude::*;
use crate::collections::{StringMap, StringSet};
use crate::model::User;
use crate::strings::{chars_of, concat, concat3, str_eq};
use crate::wildcard::{glob_match, lemma_pattern_matches_is_glob, pattern_matches, scan, scan_measure, scan_state_ok, all_stars_from};

verus! {

/// A policy rule for RBAC/ABAC.
#[derive(Debug)]
pub struct PolicyRule {
    pub subject: String,
    pub action: String,
    pub resource: String,
    pub effect: String,
    pub conditions: StringMap<String>,
}

/// Every condition is present with the same value in the context; a rule
/// without conditions needs no context.
pub open spec fn conditions_hold(conditions: StringMap<String>, context: Option<&StringMap<String>>) -> bool {
    ||| conditions.to_map() == Map::<Seq<char>, String>::empty()
    ||| match context {
        Some(ctx) => forall|k: Seq<char>| #[trigger] conditions.to_map().dom().contains(k) ==> ctx.to_map().dom().contains(k)
            && ctx.to_map()[k]@ == conditions.to_map()[k]@,
        None => false,
    }
}

/// The verdict of [`PolicyRule::matches`].
pub open spec fn rule_matches(
    rule: PolicyRule,
    subject: Seq<char>,
    action: Seq<char>,
    resource: Seq<char>,
    context: Option<&StringMap<String>>,
) -> bool {
    &&& pattern_matches(rule.subject@, subject)
    &&& pattern_matches(rule.action@, action)
    &&& pattern_matches(rule.resource@, resource)
    &&& conditions_hold(rule.conditions, context)
}

impl PolicyRule {
    /// A rule that allows `subject` to perform `action` on `resource`, with no
    /// conditions.
    pub fn new(subject: &str, action: &str, resource: &str) -> (r: PolicyRule)
        ensures
            r.subject@ == subject@,
            r.action@ == action@,
            r.resource@ == resource@,
            r.effect@ == "allow"@,
            r.conditions.to_map() == Map::<Seq<char>, String>::empty(),
    {
        PolicyRule {
            subject: subject.to_owned(),
            action: action.to_owned(),
            resource: resource.to_owned(),
            effect: String::from_str("allow"),
            conditions: StringMap::new(),
        }
    }

    /// The same rule with effect `effect` ("allow" or "deny").
    pub fn with_effect(self, effect: &str) -> (r: PolicyRule)
        ensures
            r == (PolicyRule { effect: r.effect, ..self }),
            r.effect@ == effect@,
    {
        let mut rule = self;
        rule.effect = effect.to_owned();
        rule
    }

    /// The same rule with conditions `conditions`.
    pub fn with_conditions(self, conditions: StringMap<String>) -> (r: PolicyRule)
        ensures
            r == (PolicyRule { conditions, ..self }),
    {
        let mut rule = self;
        rule.conditions = conditions;
        rule
    }

    /// Whether this rule applies to `subject` performing `action` on
    /// `resource` in `context`. Subject, action and resource are matched
    /// against the rule's wildcard patterns; every condition must be present
    /// with the same value in the context.
    pub fn matches(
        &self,
        subject: &str,
        action: &str,
        resource: &str,
        context: Option<&StringMap<String>>,
    ) -> (r: bool)
        ensures
            r == rule_matches(*self, subject@, action@, resource@, context),
    {
        if !self.matches_pattern(self.subject.as_str(), subject) {
            return false;
        }
        if !self.matches_pattern(self.action.as_str(), action) {
            return false;
        }
        if !self.matches_pattern(self.resource.as_str(), resource) {
            return false;
        }
        if !self.conditions.is_empty() {
            match context {
                Some(ctx) => {
                    let n = self.conditions.len();
                    let mut i: usize = 0;
                    while i < n
                        invariant
                            n == self.conditions.keys().len(),
                            pattern_matches(self.subject@, subject@),
                            pattern_matches(self.action@, action@),
                            pattern_matches(self.resource@, resource@),
                            self.conditions.to_map() != Map::<Seq<char>, String>::empty(),
                            context == Some(ctx),
                            i <= n,
                            forall|j: int| 0 <= j < i ==> {
                                let k = #[trigger] self.conditions.keys()[j];
                                ctx.to_map().dom().contains(k) && ctx.to_map()[k]@ == self.conditions.to_map()[k]@
                            },
                        decreases n - i,
                    {
                        let key = self.conditions.key_at(i);
                        let expected = self.conditions.value_at(i);
                        match ctx.get(key.as_str()) {
                            Some(v) => {
                                if !(*v == *expected) {
                                    return false;
                                }
                            },
                            None => {
                                return false;
                            },
                        }
                        i += 1;
                    }
                    proof {
                        assert forall|k: Seq<char>| #[trigger] self.conditions.to_map().dom().contains(k) implies ctx.to_map().dom().contains(k)
                            && ctx.to_map()[k]@ == self.conditions.to_map()[k]@ by {
                            let j = self.conditions.keys().index_of(k);
                            assert(self.conditions.keys()[j] == k);
                        }
                    }
                },
                None => {
                    return false;
                },
            }
        }
        true
    }

    /// Wildcard match of a whole value against a pattern.
    fn matches_pattern(&self, pattern: &str, value: &str) -> (r: bool)
        ensures
            r == pattern_matches(pattern@, value@),
            !value@.contains('*') ==> r == glob_match(pattern@, value@),
    {
        proof {
            if !value@.contains('*') {
                lemma_pattern_matches_is_glob(pattern@, value@);
            }
        }
        let p = chars_of(pattern);
        let s = chars_of(value);
        let mut pi: usize = 0;
        let mut si: usize = 0;
        let mut star: Option<(usize, usize)> = None;
        let ghost gstar: Option<(int, int)> = None;
        while si < s.len()
            invariant
                p@ == pattern@,
                s@ == value@,
                gstar == (match star { None => None, Some((a, b)) => Some((a as int, b as int)) }),
                scan_state_ok(p@, s@, pi as int, si as int, gstar),
                scan(p@, s@, pi as int, si as int, gstar) == pattern_matches(p@, s@),
                !value@.contains('*') ==> pattern_matches(pattern@, value@) == glob_match(pattern@, value@),
            decreases scan_measure(s@, gstar), (s@.len() - si) + (p@.len() - pi),
        {
            if pi < p.len() && (p[pi] == s[si] || p[pi] == '?') {
                pi += 1;
                si += 1;
            } else if pi < p.len() && p[pi] == '*' {
                star = Some((pi, si));
                proof { gstar = Some((pi as int, si as int)); }
                pi += 1;
            } else {
                match star {
                    Some((sp, ss)) => {
                        pi = sp + 1;
                        star = Some((sp, ss + 1));
                        proof { gstar = Some((sp as int, ss + 1)); }
                        si = ss + 1;
                    },
                    None => {
                        return false;
                    },
                }
            }
        }
        while pi < p.len() && p[pi] == '*'
            invariant
                p@ == pattern@,
                s@ == value@,
                si == s@.len(),
                pi <= p@.len(),
                all_stars_from(p@, pi as int) == pattern_matches(p@, s@),
            decreases p@.len() - pi,
        {
            pi += 1;
        }
        pi == p.len()
    }

}

/// The rule applies to the user, to one of the user's roles, or to every
/// subject (`*`).
pub open spec fn rule_applies(
    rule: PolicyRule,
    user: &User,
    action: Seq<char>,
    resource: Seq<char>,
    context: Option<&StringMap<String>>,
) -> bool {
    ||| rule_matches(rule, "user:"@ + user.username@, action, resource, context)
    ||| exists|i: int| 0 <= i < user.roles.elems().len()
        && rule_matches(rule, "role:"@ + #[trigger] user.roles.elems()[i], action, resource, context)
    ||| rule_matches(rule, "*"@, action, resource, context)
}

/// Some rule with effect `effect` applies.
pub open spec fn some_rule_applies(
    rules: Seq<PolicyRule>,
    effect: Seq<char>,
    user: &User,
    action: Seq<char>,
    resource: Seq<char>,
    context: Option<&StringMap<String>>,
) -> bool {
    exists|i: int| 0 <= i < rules.len() && #[trigger] rules[i].effect@ == effect
        && rule_applies(rules[i], user, action, resource, context)
}

/// The permission that names `action` on `resource`.
pub open spec fn permission_name(action: Seq<char>, resource: Seq<char>) -> Seq<char> {
    action + ":"@ + resource
}

/// One of the user's roles grants the permission, or every action of its kind.
pub open spec fn role_grants(
    role_permissions: StringMap<StringSet>,
    user: &User,
    action: Seq<char>,
    resource: Seq<char>,
) -> bool {
    exists|i: int| 0 <= i < user.roles.elems().len() && {
        let role = #[trigger] user.roles.elems()[i];
        &&& role_permissions.to_map().dom().contains(role)
        &&& {
            ||| role_permissions.to_map()[role].members().contains(permission_name(action, resource))
            ||| role_permissions.to_map()[role].members().contains(action + ":*"@)
        }
    }
}

/// The verdict of [`PolicyEngine::check`]: an applicable deny rule refuses;
/// otherwise a direct permission, a role permission or an applicable allow
/// rule grants; otherwise access is refused.
pub open spec fn access_granted(
    rules: Seq<PolicyRule>,
    role_permissions: StringMap<StringSet>,
    user: &User,
    action: Seq<char>,
    resource: Seq<char>,
    context: Option<&StringMap<String>>,
) -> bool {
    if some_rule_applies(rules, "deny"@, user, action, resource, context) {
        false
    } else if user.permissions.members().contains(permission_name(action, resource)) {
        true
    } else if role_grants(role_permissions, user, action, resource) {
        true
    } else {
        some_rule_applies(rules, "allow"@, user, action, resource, context)
    }
}

/// `p2` is `p` after `permission` was granted to `role`: the same rules, and
/// the role's permissions (none before when the role was unknown) with
/// `permission` added; every other role as it was.
pub open spec fn role_permission_added(p: PolicyEngine, p2: PolicyEngine, role: Seq<char>, permission: Seq<char>) -> bool {
    &&& p2.rule_list() == p.rule_list()
    &&& p2.role_table().to_map().dom() == p.role_table().to_map().dom().insert(role)
    &&& p2.role_table().to_map()[role].members() == (if p.role_table().to_map().dom().contains(role) {
        p.role_table().to_map()[role].members()
    } else {
        Set::<Seq<char>>::empty()
    }).insert(permission)
    &&& forall|k: Seq<char>| k != role && #[trigger] p.role_table().to_map().dom().contains(k)
        ==> p2.role_table().to_map()[k] == p.role_table().to_map()[k]
}

/// RBAC/ABAC policy engine.
#[derive(Debug)]
pub struct PolicyEngine {
    pub(crate) rules: Vec<PolicyRule>,
    pub(crate) role_permissions: StringMap<StringSet>,
}

impl PolicyEngine {
    /// The rules, in the order they were added.
    pub closed spec fn rule_list(&self) -> Seq<PolicyRule> {
        self.rules@
    }

    /// The permissions granted to each role.
    pub closed spec fn role_table(&self) -> StringMap<StringSet> {
        self.role_permissions
    }

    /// An engine with no rules and no role permissions.
    pub fn new() -> (r: PolicyEngine)
        ensures
            r.rule_list() == Seq::<PolicyRule>::empty(),
            r.role_table().to_map() == Map::<Seq<char>, StringSet>::empty(),
    {
        PolicyEngine { rules: Vec::new(), role_permissions: StringMap::new() }
    }

    /// Adds a policy rule after the existing ones.
    pub fn add_rule(&mut self, rule: PolicyRule)
        ensures
            final(self).rule_list() == old(self).rule_list().push(rule),
            final(self).role_table() == old(self).role_table(),
    {
        self.rules.push(rule);
    }

    /// Grants `permission` to `role`.
    pub fn add_role_permission(&mut self, role: &str, permission: &str)
        ensures
            final(self).rule_list() == old(self).rule_list(),
            final(self).role_table().to_map().dom() == old(self).role_table().to_map().dom().insert(role@),
            final(self).role_table().to_map()[role@].members() == (if old(self).role_table().to_map().dom().contains(role@) {
                old(self).role_table().to_map()[role@].members()
            } else {
                Set::<Seq<char>>::empty()
            }).insert(permission@),
            forall|k: Seq<char>| k != role@ && #[trigger] old(self).role_table().to_map().dom().contains(k)
                ==> final(self).role_table().to_map()[k] == old(self).role_table().to_map()[k],
    {
        let mut perms = match self.role_permissions.remove(role) {
            Some(p) => p,
            None => StringSet::new(),
        };
        proof {
            if perms.elems().len() == 0 {
                assert(perms.members() =~= Set::<Seq<char>>::empty());
            }
        }
        let ghost before = perms.elems();
        let fresh = perms.insert(permission.to_owned());
        proof {
            if fresh {
                perms_push_lemma(before, permission@);
            } else {
                assert(before.to_set().insert(permission@) =~= before.to_set());
            }
        }
        self.role_permissions.insert(role.to_owned(), perms);
        assert(self.role_table().to_map().dom() =~= old(self).role_table().to_map().dom().insert(role@));
    }

    /// Whether `rule` applies to the user for this request.
    fn rule_applies_to(
        rule: &PolicyRule,
        user_subject: &str,
        role_subjects: &Vec<String>,
        action: &str,
        resource: &str,
        context: Option<&StringMap<String>>,
        Ghost(user): Ghost<&User>,
    ) -> (r: bool)
        requires
            user_subject@ == "user:"@ + user.username@,
            role_subjects@.len() == user.roles.elems().len(),
            forall|i: int| 0 <= i < role_subjects@.len() ==> #[trigger] role_subjects@[i]@ == "role:"@ + user.roles.elems()[i],
        ensures
            r == rule_applies(*rule, user, action@, resource@, context),
    {
        if rule.matches(user_subject, action, resource, context) {
            return true;
        }
        let mut i: usize = 0;
        while i < role_subjects.len()
            invariant
                i <= role_subjects@.len(),
                role_subjects@.len() == user.roles.elems().len(),
                forall|j: int| 0 <= j < role_subjects@.len() ==> #[trigger] role_subjects@[j]@ == "role:"@ + user.roles.elems()[j],
                forall|j: int| 0 <= j < i ==> !rule_matches(*rule, "role:"@ + #[trigger] user.roles.elems()[j], action@, resource@, context),
            decreases role_subjects@.len() - i,
        {
            if rule.matches(role_subjects[i].as_str(), action, resource, context) {
                assert(role_subjects@[i as int]@ == "role:"@ + user.roles.elems()[i as int]);
                return true;
            }
            i += 1;
        }
        rule.matches("*", action, resource, context)
    }

    /// Whether the user may perform `action` on `resource` in `context`. An
    /// applicable deny rule refuses; otherwise the user's own permissions,
    /// the permissions of the user's roles and the applicable allow rules
    /// grant access.
    pub fn check(
        &self,
        user: &User,
        action: &str,
        resource: &str,
        context: Option<&StringMap<String>>,
    ) -> (r: bool)
        ensures
            r == access_granted(self.rule_list(), self.role_table(), user, action@, resource@, context),
    {
        let user_subject = concat("user:", user.username.as_str());
        let mut role_subjects: Vec<String> = Vec::new();
        let mut i: usize = 0;
        while i < user.roles.len()
            invariant
                i <= user.roles.elems().len(),
                role_subjects@.len() == i,
                forall|j: int| 0 <= j < i ==> #[trigger] role_subjects@[j]@ == "role:"@ + user.roles.elems()[j],
            decreases user.roles.elems().len() - i,
        {
            role_subjects.push(concat("role:", user.roles.get(i).as_str()));
            i += 1;
        }

        // Explicit deny rules override everything.
        let mut k: usize = 0;
        while k < self.rules.len()
            invariant
                k <= self.rules@.len(),
                user_subject@ == "user:"@ + user.username@,
                role_subjects@.len() == user.roles.elems().len(),
                forall|j: int| 0 <= j < role_subjects@.len() ==> #[trigger] role_subjects@[j]@ == "role:"@ + user.roles.elems()[j],
                forall|j: int| 0 <= j < k ==> !(#[trigger] self.rules@[j].effect@ == "deny"@
                    && rule_applies(self.rules@[j], user, action@, resource@, context)),
            decreases self.rules@.len() - k,
        {
            let rule = &self.rules[k];
            if Self::rule_applies_to(rule, user_subject.as_str(), &role_subjects, action, resource, context, Ghost(user))
                && str_eq(rule.effect.as_str(), "deny") {
                return false;
            }
            k += 1;
        }
        assert(!some_rule_applies(self.rule_list(), "deny"@, user, action@, resource@, context));

        // Direct permissions.
        let permission = concat3(action, ":", resource);
        if user.has_permission(permission.as_str()) {
            return true;
        }

        // Role-based permissions.
        let any_action = concat(action, ":*");
        let mut m: usize = 0;
        while m < user.roles.len()
            invariant
                m <= user.roles.elems().len(),
                permission@ == permission_name(action@, resource@),
                any_action@ == action@ + ":*"@,
                !some_rule_applies(self.rule_list(), "deny"@, user, action@, resource@, context),
                !user.permissions.members().contains(permission_name(action@, resource@)),
                forall|j: int| 0 <= j < m ==> {
                    let role = #[trigger] user.roles.elems()[j];
                    !(self.role_permissions.to_map().dom().contains(role) && (
                        self.role_permissions.to_map()[role].members().contains(permission_name(action@, resource@))
                        || self.role_permissions.to_map()[role].members().contains(action@ + ":*"@)))
                },
            decreases user.roles.elems().len() - m,
        {
            let role = user.roles.get(m);
            match self.role_permissions.get(role.as_str()) {
                Some(perms) => {
                    if perms.contains(permission.as_str()) || perms.contains(any_action.as_str()) {
                        assert(user.roles.elems()[m as int] == role@);
                        return true;
                    }
                },
                None => {},
            }
            m += 1;
        }
        assert(!role_grants(self.role_table(), user, action@, resource@));

        // Allow rules.
        let mut n: usize = 0;
        while n < self.rules.len()
            invariant
                n <= self.rules@.len(),
                user_subject@ == "user:"@ + user.username@,
                role_subjects@.len() == user.roles.elems().len(),
                forall|j: int| 0 <= j < role_subjects@.len() ==> #[trigger] role_subjects@[j]@ == "role:"@ + user.roles.elems()[j],
                !some_rule_applies(self.rule_list(), "deny"@, user, action@, resource@, context),
                !user.permissions.members().contains(permission_name(action@, resource@)),
                !role_grants(self.role_table(), user, action@, resource@),
                forall|j: int| 0 <= j < n ==> !(#[trigger] self.rules@[j].effect@ == "allow"@
                    && rule_applies(self.rules@[j], user, action@, resource@, context)),
            decreases self.rules@.len() - n,
        {
            let rule = &self.rules[n];
            if Self::rule_applies_to(rule, user_subject.as_str(), &role_subjects, action, resource, context, Ghost(user))
                && str_eq(rule.effect.as_str(), "allow") {
                return true;
            }
            n += 1;
        }
        false
    }
}

proof fn perms_push_lemma(s: Seq<Seq<char>>, x: Seq<char>)
    ensures
        s.push(x).to_set() == s.to_set().insert(x),
{
    s.lemma_push_to_set_commute(x);
}

impl Default for PolicyEngine {
    /// An engine with no rules and no role permissions.
    fn default() -> (r: Self)
        ensures
            r.rule_list() == Seq::<PolicyRule>::empty(),
            r.role_table().to_map() == Map::<Seq<char>, StringSet>::empty(),
    {
        PolicyEngine::new()
    }
}

} // verus!
