//! Permission rules read from the trie and their resolution.
//!
//! A rule is a `§{verb}` instruction node followed by a target path. An
//! identity holds its own rules and those of its groups; a check looks for a
//! matching `§deny` first (deny always wins), then `§own` (own implies every
//! verb), then the verb itself, then falls back on the identity's tier.
use vstd::prelude::*;
use crate::identity::{tier_debug, Identity, PrivilegeTier};
use crate::parser::{NodeClass, NodeClassView};
use crate::strings::{clone_strings, concat, concat3, concat5, join_seq, join_strs, owned, str_eq, strings_view, strs_view, u64_to_string, decimal};
use crate::trie::{collect_leaf_paths, leaves, lookup, paths_view, Trie, TrieNode};

verus! {

broadcast use vstd::std_specs::hash::group_hash_axioms;

/// Permission verbs: what an identity can do.
#[derive(Debug, Clone, Copy, PartialEq, Eq, Structural, Hash)]
pub enum Verb {
    Read,
    Write,
    Execute,
    Own,
    Deny,
}

/// The verb that the argument of a `§` door names, if any.
pub open spec fn verb_named(s: Seq<char>) -> Option<Verb> {
    if s == "read"@ {
        Some(Verb::Read)
    } else if s == "write"@ {
        Some(Verb::Write)
    } else if s == "execute"@ {
        Some(Verb::Execute)
    } else if s == "own"@ {
        Some(Verb::Own)
    } else if s == "deny"@ {
        Some(Verb::Deny)
    } else {
        None
    }
}

/// The name of a verb as `{:?}` writes it.
pub open spec fn verb_debug(v: Verb) -> Seq<char> {
    match v {
        Verb::Read => "Read"@,
        Verb::Write => "Write"@,
        Verb::Execute => "Execute"@,
        Verb::Own => "Own"@,
        Verb::Deny => "Deny"@,
    }
}

impl Verb {
    /// Parse a verb from the argument of a `§` logic door.
    pub fn from_str(s: &str) -> (r: Option<Verb>)
        ensures
            r == verb_named(s@),
    {
        if str_eq(s, "read") {
            Some(Verb::Read)
        } else if str_eq(s, "write") {
            Some(Verb::Write)
        } else if str_eq(s, "execute") {
            Some(Verb::Execute)
        } else if str_eq(s, "own") {
            Some(Verb::Own)
        } else if str_eq(s, "deny") {
            Some(Verb::Deny)
        } else {
            None
        }
    }

    /// Whether this verb is satisfied by a grant: `Own` grants everything,
    /// otherwise the verbs must be the same.
    pub fn satisfied_by(&self, grant: Verb) -> (r: bool)
        ensures
            r == (grant == Verb::Own || grant == *self),
    {
        grant == Verb::Own || grant == *self
    }

    /// The verb's name as `{:?}` writes it.
    pub fn debug_name(&self) -> (r: &'static str)
        ensures
            r@ == verb_debug(*self),
    {
        match self {
            Verb::Read => "Read",
            Verb::Write => "Write",
            Verb::Execute => "Execute",
            Verb::Own => "Own",
            Verb::Deny => "Deny",
        }
    }
}

/// The wildcard segment `_`.
pub open spec fn wildcard() -> Seq<char> {
    seq!['_']
}

/// Whether a rule target matches a path: the single wildcard `_` matches
/// everything; otherwise the target is a prefix of the path, segment by
/// segment, where a `_` segment matches any segment.
pub open spec fn rule_matches(target: Seq<Seq<char>>, path: Seq<Seq<char>>) -> bool {
    ||| target.len() == 1 && target[0] == wildcard()
    ||| target.len() <= path.len() && forall|i: int|
        0 <= i < target.len() ==> (#[trigger] target[i]) == wildcard() || target[i] == path[i]
}

/// A single permission rule: a verb and the target path it applies to.
#[derive(Debug, PartialEq, Eq)]
pub struct PermissionRule {
    pub verb: Verb,
    /// The target path segments; `["_"]` matches everything.
    pub target: Vec<String>,
}

/// The mathematical value of a rule: its verb and its target segments.
pub type RuleView = (Verb, Seq<Seq<char>>);

impl View for PermissionRule {
    type V = RuleView;

    open spec fn view(&self) -> RuleView {
        (self.verb, strings_view(self.target@))
    }
}

/// The views of a list of rules.
pub open spec fn rules_view(v: Seq<PermissionRule>) -> Seq<RuleView> {
    v.map_values(|r: PermissionRule| r@)
}

impl Clone for PermissionRule {
    fn clone(&self) -> (r: Self)
        ensures
            r@ == self@,
    {
        PermissionRule { verb: self.verb, target: clone_strings(&self.target) }
    }
}

impl PermissionRule {
    /// Whether this rule matches the given target path.
    pub fn matches(&self, path: &[&str]) -> (r: bool)
        ensures
            r == rule_matches(self@.1, strs_view(path@)),
    {
        let ghost t = strings_view(self.target@);
        let ghost p = strs_view(path@);
        if self.target.len() == 1 && str_eq(self.target[0].as_str(), "_") {
            proof {
                reveal_strlit("_");
                assert("_"@ =~= wildcard());
            }
            return true;
        }
        proof {
            reveal_strlit("_");
            assert("_"@ =~= wildcard());
        }
        if self.target.len() > path.len() {
            return false;
        }
        let mut i: usize = 0;
        while i < self.target.len()
            invariant
                t == strings_view(self.target@),
                p == strs_view(path@),
                t.len() <= p.len(),
                i <= t.len(),
                forall|j: int| 0 <= j < i ==> (#[trigger] t[j]) == wildcard() || t[j] == p[j],
            decreases t.len() - i,
        {
            let seg = self.target[i].as_str();
            proof {
                reveal_strlit("_");
                assert("_"@ =~= wildcard());
                assert(t[i as int] == self.target@[i as int]@);
                assert(p[i as int] == path@[i as int]@);
            }
            if !str_eq(seg, "_") && !str_eq(seg, path[i]) {
                assert(!(t[i as int] == wildcard() || t[i as int] == p[i as int]));
                assert(!(t.len() == 1 && t[0] == wildcard())) by {
                    if t.len() == 1 && t[0] == wildcard() {
                        assert(self.target@.len() == 1);
                    }
                }
                return false;
            }
            i += 1;
        }
        true
    }
}

// ---------------------------------------------------------------------------
// Reading rules out of the trie
// ---------------------------------------------------------------------------

/// The rules that one child of an identity or group directory declares: a
/// `§{verb}` node gives one rule per leaf below it, or a wildcard rule when
/// nothing is below it; any other node gives none.
pub open spec fn door_rules(c: TrieNode) -> Seq<RuleView> {
    if let NodeClassView::Instruction { door, arg } = c.class@ {
        if door == '§' && verb_named(arg) is Some {
            let v = verb_named(arg)->0;
            let ls = leaves(c, Seq::empty());
            if ls.len() == 0 {
                seq![(v, seq![wildcard()])]
            } else {
                ls.map_values(|p: Seq<Seq<char>>| (v, p))
            }
        } else {
            Seq::empty()
        }
    } else {
        Seq::empty()
    }
}

/// The rules declared by a list of children, in order.
pub open spec fn rules_in(cs: Seq<TrieNode>) -> Seq<RuleView>
    decreases cs.len(),
{
    if cs.len() == 0 {
        Seq::empty()
    } else {
        rules_in(cs.drop_last()) + door_rules(cs.last())
    }
}

proof fn lemma_rules_in_step(cs: Seq<TrieNode>, i: int)
    requires
        0 <= i < cs.len(),
    ensures
        rules_in(cs.take(i + 1)) == rules_in(cs.take(i)) + door_rules(cs[i]),
{
    assert(cs.take(i + 1).drop_last() == cs.take(i));
}

/// Extract the permission rules declared by the children of a node.
pub fn extract_rules(node: &TrieNode) -> (r: Vec<PermissionRule>)
    ensures
        rules_view(r@) == rules_in(node.children@),
{
    let mut rules: Vec<PermissionRule> = Vec::new();
    let mut i: usize = 0;
    while i < node.children.len()
        invariant
            i <= node.children@.len(),
            rules_view(rules@) == rules_in(node.children@.take(i as int)),
        decreases node.children@.len() - i,
    {
        let child = &node.children[i];
        proof {
            lemma_rules_in_step(node.children@, i as int);
        }
        let ghost before = rules_view(rules@);
        match &child.class {
            NodeClass::Instruction { door, arg } => {
                if *door == '§' {
                    match Verb::from_str(arg.as_str()) {
                        Some(verb) => {
                            let mut found: Vec<Vec<String>> = Vec::new();
                            let mut current: Vec<String> = Vec::new();
                            collect_leaf_paths(child, &mut current, &mut found);
                            assert(strings_view(Seq::<String>::empty()) =~= Seq::<Seq<char>>::empty());
                            assert(paths_view(found@) =~= leaves(*child, Seq::empty()));
                            if found.len() == 0 {
                                let mut target: Vec<String> = Vec::new();
                                let w = owned("_");
                                proof {
                                    reveal_strlit("_");
                                    assert(w@ =~= wildcard());
                                }
                                target.push(w);
                                assert(target@.len() == 1 && target@[0] == w);
                                assert(strings_view(target@) =~= seq![wildcard()]);
                                rules.push(PermissionRule { verb, target });
                                assert(rules_view(rules@) =~= before + door_rules(*child));
                            } else {
                                let ghost ls = leaves(*child, Seq::empty());
                                let mut k: usize = 0;
                                while k < found.len()
                                    invariant
                                        k <= found@.len(),
                                        paths_view(found@) == ls,
                                        rules_view(rules@) == before + ls.take(k as int).map_values(
                                            |p: Seq<Seq<char>>| (verb, p),
                                        ),
                                    decreases found@.len() - k,
                                {
                                    let target = clone_strings(&found[k]);
                                    let ghost mid = rules_view(rules@);
                                    rules.push(PermissionRule { verb, target });
                                    assert(paths_view(found@)[k as int] == strings_view(found@[k as int]@));
                                    assert(rules_view(rules@) =~= mid.push((verb, ls[k as int])));
                                    assert(ls.take(k + 1).map_values(|p: Seq<Seq<char>>| (verb, p))
                                        =~= ls.take(k as int).map_values(|p: Seq<Seq<char>>| (verb, p)).push((verb, ls[k as int])));
                                    k += 1;
                                }
                                assert(ls.take(ls.len() as int) == ls);
                                assert(rules_view(rules@) =~= before + door_rules(*child));
                            }
                        },
                        None => {
                            assert(door_rules(*child) =~= Seq::<RuleView>::empty());
                        },
                    }
                } else {
                    assert(door_rules(*child) =~= Seq::<RuleView>::empty());
                }
            },
            _ => {
                assert(door_rules(*child) =~= Seq::<RuleView>::empty());
            },
        }
        assert(rules_view(rules@) =~= before + door_rules(*child));
        i += 1;
    }
    assert(node.children@.take(node.children@.len() as int) == node.children@);
    rules
}

// ---------------------------------------------------------------------------
// The engine
// ---------------------------------------------------------------------------

/// All permissions of one identity: its own rules, then those of its groups.
#[derive(Debug)]
pub struct IdentityPermissions {
    pub identity: Identity,
    pub rules: Vec<PermissionRule>,
}

/// The mathematical value of an identity's permissions.
pub struct IdentityPermissionsView {
    pub identity: crate::identity::IdentityView,
    pub rules: Seq<RuleView>,
}

impl View for IdentityPermissions {
    type V = IdentityPermissionsView;

    open spec fn view(&self) -> IdentityPermissionsView {
        IdentityPermissionsView { identity: self.identity@, rules: rules_view(self.rules@) }
    }
}

/// One group and its rules.
#[derive(Debug)]
struct GroupRules {
    name: String,
    rules: Vec<PermissionRule>,
}

/// The groups of a list, each name bound to the rules of its last entry.
spec fn group_map(gs: Seq<GroupRules>) -> Map<Seq<char>, Seq<RuleView>>
    decreases gs.len(),
{
    if gs.len() == 0 {
        Map::empty()
    } else {
        group_map(gs.drop_last()).insert(gs.last().name@, rules_view(gs.last().rules@))
    }
}

spec fn group_names_unique(gs: Seq<GroupRules>) -> bool {
    forall|i: int, j: int| 0 <= i < j < gs.len() ==> (#[trigger] gs[i]).name@ != (#[trigger] gs[j]).name@
}

/// The mathematical value of the engine: permissions per identity number and
/// rules per group name.
pub struct PermissionEngineView {
    pub identities: Map<u64, IdentityPermissionsView>,
    pub groups: Map<Seq<char>, Seq<RuleView>>,
}

/// The permission engine, loaded from the trie.
#[derive(Debug)]
pub struct PermissionEngine {
    identities: std::collections::HashMap<u64, IdentityPermissions>,
    groups: Vec<GroupRules>,
}

impl View for PermissionEngine {
    type V = PermissionEngineView;

    closed spec fn view(&self) -> PermissionEngineView {
        PermissionEngineView {
            identities: self.identities@.map_values(|p: IdentityPermissions| p@),
            groups: group_map(self.groups@),
        }
    }
}

/// The path `hard/groups`.
pub open spec fn groups_path() -> Seq<Seq<char>> {
    seq!["hard"@, "groups"@]
}

/// The path `hard/identities`.
pub open spec fn identities_path() -> Seq<Seq<char>> {
    seq!["hard"@, "identities"@]
}

/// The groups declared by the children of `hard/groups`: each child's name
/// bound to the rules its own children declare (a later child of the same
/// name replaces an earlier one).
pub open spec fn groups_from(cs: Seq<TrieNode>) -> Map<Seq<char>, Seq<RuleView>>
    decreases cs.len(),
{
    if cs.len() == 0 {
        Map::empty()
    } else {
        groups_from(cs.drop_last()).insert(cs.last().segment@, rules_in(cs.last().children@))
    }
}

/// The groups that the trie declares.
pub open spec fn groups_model(root: TrieNode) -> Map<Seq<char>, Seq<RuleView>> {
    match lookup(root, groups_path()) {
        Some(n) => groups_from(n.children@),
        None => Map::empty(),
    }
}

/// Whether a node is a `-group` instruction node.
pub open spec fn is_group_door(c: TrieNode) -> bool {
    c.class@ matches NodeClassView::Instruction { door, arg } && door == '-' && arg == "group"@
}

/// The groups an identity directory names: the children of its `-group`
/// nodes, in order.
pub open spec fn member_groups(cs: Seq<TrieNode>) -> Seq<Seq<char>>
    decreases cs.len(),
{
    if cs.len() == 0 {
        Seq::empty()
    } else {
        member_groups(cs.drop_last()) + if is_group_door(cs.last()) {
            cs.last().children@.map_values(|g: TrieNode| g.segment@)
        } else {
            Seq::empty()
        }
    }
}

/// The rules inherited from the named groups, in order; unknown groups add none.
pub open spec fn inherited(groups: Map<Seq<char>, Seq<RuleView>>, names: Seq<Seq<char>>) -> Seq<RuleView>
    decreases names.len(),
{
    if names.len() == 0 {
        Seq::empty()
    } else {
        inherited(groups, names.drop_last()) + if groups.contains_key(names.last()) {
            groups[names.last()]
        } else {
            Seq::empty()
        }
    }
}

/// The permissions of the identity whose directory is `c`, numbered `id`.
pub open spec fn identity_entry(c: TrieNode, id: u64, groups: Map<Seq<char>, Seq<RuleView>>) -> IdentityPermissionsView {
    IdentityPermissionsView {
        identity: crate::identity::IdentityView {
            id,
            name: c.segment@,
            tier: PrivilegeTier::spec_from_name(c.segment@),
            groups: member_groups(c.children@),
        },
        rules: rules_in(c.children@) + inherited(groups, member_groups(c.children@)),
    }
}

/// The identities declared by the children of `hard/identities`: each child
/// whose name parses as a number, by that number (a later child of the same
/// number replaces an earlier one); other children are skipped.
pub open spec fn identities_from(cs: Seq<TrieNode>, groups: Map<Seq<char>, Seq<RuleView>>) -> Map<u64, IdentityPermissionsView>
    decreases cs.len(),
{
    if cs.len() == 0 {
        Map::empty()
    } else {
        let prev = identities_from(cs.drop_last(), groups);
        match crate::strings::parse_unsigned(cs.last().segment@, u64::MAX as nat) {
            Some(n) => prev.insert(n as u64, identity_entry(cs.last(), n as u64, groups)),
            None => prev,
        }
    }
}

/// Every identity directory named by a number is loaded under that number,
/// as the last directory (in name order) that reads as the number declares
/// it: its name, the tier of its name, and its own rules followed by those
/// of its groups.
pub proof fn lemma_numbered_identities_are_loaded(cs: Seq<TrieNode>, groups: Map<Seq<char>, Seq<RuleView>>, k: int, n: nat)
    requires
        0 <= k < cs.len(),
        crate::strings::parse_unsigned(cs[k].segment@, u64::MAX as nat) == Some(n),
        forall|k2: int| k < k2 < cs.len() ==> crate::strings::parse_unsigned(#[trigger] cs[k2].segment@, u64::MAX as nat) != Some(n),
    ensures
        identities_from(cs, groups).contains_key(n as u64),
        identities_from(cs, groups)[n as u64] == identity_entry(cs[k], n as u64, groups),
        identities_from(cs, groups)[n as u64].identity.name == cs[k].segment@,
        identities_from(cs, groups)[n as u64].rules.take(rules_in(cs[k].children@).len() as int) == rules_in(cs[k].children@),
    decreases cs.len(),
{
    let pre = cs.drop_last();
    if k < cs.len() - 1 {
        assert(pre[k] == cs[k]);
        assert forall|k2: int| k < k2 < pre.len() implies crate::strings::parse_unsigned(#[trigger] pre[k2].segment@, u64::MAX as nat) != Some(n) by {
            assert(cs[k2] == pre[k2]);
        }
        lemma_numbered_identities_are_loaded(pre, groups, k, n);
        assert(crate::strings::parse_unsigned(cs[cs.len() - 1].segment@, u64::MAX as nat) != Some(n));
        match crate::strings::parse_unsigned(cs.last().segment@, u64::MAX as nat) {
            Some(m) => {
                assert(m != n);
                assert(m <= u64::MAX && n <= u64::MAX);
                assert(m as u64 != n as u64);
            },
            None => {},
        }
    }
    let e = identity_entry(cs[k], n as u64, groups);
    assert(e.rules.take(rules_in(cs[k].children@).len() as int) =~= rules_in(cs[k].children@));
}

/// The engine that the trie describes.
pub open spec fn engine_model(root: TrieNode) -> PermissionEngineView {
    let groups = groups_model(root);
    PermissionEngineView {
        identities: match lookup(root, identities_path()) {
            Some(n) => identities_from(n.children@, groups),
            None => Map::empty(),
        },
        groups,
    }
}

proof fn lemma_group_map_unique_lookup(gs: Seq<GroupRules>, i: int)
    requires
        group_names_unique(gs),
        0 <= i < gs.len(),
    ensures
        group_map(gs).contains_key(gs[i].name@),
        group_map(gs)[gs[i].name@] == rules_view(gs[i].rules@),
    decreases gs.len(),
{
    if i < gs.len() - 1 {
        lemma_group_map_unique_lookup(gs.drop_last(), i);
        assert(gs.drop_last()[i] == gs[i]);
    }
}

proof fn lemma_group_map_absent(gs: Seq<GroupRules>, k: Seq<char>)
    requires
        forall|i: int| 0 <= i < gs.len() ==> (#[trigger] gs[i]).name@ != k,
    ensures
        !group_map(gs).contains_key(k),
    decreases gs.len(),
{
    if gs.len() > 0 {
        lemma_group_map_absent(gs.drop_last(), k);
    }
}

proof fn lemma_group_map_update(gs: Seq<GroupRules>, i: int, g: GroupRules)
    requires
        group_names_unique(gs),
        0 <= i < gs.len(),
        g.name@ == gs[i].name@,
    ensures
        group_map(gs.update(i, g)) == group_map(gs).insert(g.name@, rules_view(g.rules@)),
    decreases gs.len(),
{
    let gs2 = gs.update(i, g);
    if i == gs.len() - 1 {
        assert(gs2.drop_last() == gs.drop_last());
        assert(group_map(gs2) =~= group_map(gs).insert(g.name@, rules_view(g.rules@)));
    } else {
        lemma_group_map_update(gs.drop_last(), i, g);
        assert(gs2.drop_last() == gs.drop_last().update(i, g));
        assert(gs.last().name@ != g.name@) by {
            assert(gs[i].name@ != gs[gs.len() - 1].name@);
        }
        assert(group_map(gs2) =~= group_map(gs).insert(g.name@, rules_view(g.rules@)));
    }
}

proof fn lemma_group_map_len(gs: Seq<GroupRules>)
    requires
        group_names_unique(gs),
    ensures
        group_map(gs).dom().finite(),
        group_map(gs).dom().len() == gs.len(),
    decreases gs.len(),
{
    if gs.len() > 0 {
        let pre = gs.drop_last();
        assert(group_names_unique(pre)) by {
            assert forall|i: int, j: int| 0 <= i < j < pre.len() implies (#[trigger] pre[i]).name@ != (#[trigger] pre[j]).name@ by {
                assert(pre[i] == gs[i] && pre[j] == gs[j]);
            }
        }
        lemma_group_map_len(pre);
        assert forall|i: int| 0 <= i < pre.len() implies (#[trigger] pre[i]).name@ != gs.last().name@ by {
            assert(pre[i] == gs[i]);
        }
        lemma_group_map_absent(pre, gs.last().name@);
    }
}

/// The position of the group named `name`, if any.
fn group_index(groups: &Vec<GroupRules>, name: &str) -> (r: Option<usize>)
    ensures
        match r {
            Some(i) => i < groups@.len() && groups@[i as int].name@ == name@,
            None => forall|i: int| 0 <= i < groups@.len() ==> (#[trigger] groups@[i]).name@ != name@,
        },
{
    let mut i: usize = 0;
    while i < groups.len()
        invariant
            i <= groups@.len(),
            forall|j: int| 0 <= j < i ==> (#[trigger] groups@[j]).name@ != name@,
        decreases groups@.len() - i,
    {
        if str_eq(groups[i].name.as_str(), name) {
            return Some(i);
        }
        i += 1;
    }
    None
}

proof fn lemma_groups_from_step(cs: Seq<TrieNode>, i: int)
    requires
        0 <= i < cs.len(),
    ensures
        groups_from(cs.take(i + 1)) == groups_from(cs.take(i)).insert(cs[i].segment@, rules_in(cs[i].children@)),
{
    assert(cs.take(i + 1).drop_last() == cs.take(i));
}

/// Load the group definitions below `hard/groups`.
fn load_groups(trie: &Trie) -> (r: Vec<GroupRules>)
    ensures
        group_names_unique(r@),
        group_map(r@) == groups_model(trie.root),
{
    let mut groups: Vec<GroupRules> = Vec::new();
    let path = vec!["hard", "groups"];
    assert(strs_view(path@) =~= groups_path());
    let node = match trie.get(path.as_slice()) {
        Some(n) => n,
        None => {
            assert(group_map(groups@) =~= Map::empty());
            return groups;
        },
    };
    let mut i: usize = 0;
    while i < node.children.len()
        invariant
            i <= node.children@.len(),
            group_names_unique(groups@),
            group_map(groups@) == groups_from(node.children@.take(i as int)),
        decreases node.children@.len() - i,
    {
        let child = &node.children[i];
        let rules = extract_rules(child);
        proof {
            lemma_groups_from_step(node.children@, i as int);
        }
        match group_index(&groups, child.segment.as_str()) {
            Some(k) => {
                let g = GroupRules { name: child.segment.clone(), rules };
                let ghost old_groups = groups@;
                proof {
                    lemma_group_map_update(old_groups, k as int, g);
                }
                groups.set(k, g);
                assert(groups@ == old_groups.update(k as int, g));
                assert(group_names_unique(groups@)) by {
                    assert forall|a: int, b: int| 0 <= a < b < groups@.len() implies (#[trigger] groups@[a]).name@ != (#[trigger] groups@[b]).name@ by {
                        assert(old_groups[a].name@ != old_groups[b].name@);
                    }
                }
            },
            None => {
                let g = GroupRules { name: child.segment.clone(), rules };
                let ghost old_groups = groups@;
                groups.push(g);
                assert(groups@.drop_last() == old_groups);
                assert(group_names_unique(groups@)) by {
                    assert forall|a: int, b: int| 0 <= a < b < groups@.len() implies (#[trigger] groups@[a]).name@ != (#[trigger] groups@[b]).name@ by {
                        if b < old_groups.len() {
                            assert(old_groups[a].name@ != old_groups[b].name@);
                        } else {
                            assert(old_groups[a].name@ != child.segment@);
                        }
                    }
                }
            },
        }
        i += 1;
    }
    assert(node.children@.take(node.children@.len() as int) == node.children@);
    groups
}

proof fn lemma_member_groups_step(cs: Seq<TrieNode>, i: int)
    requires
        0 <= i < cs.len(),
    ensures
        member_groups(cs.take(i + 1)) == member_groups(cs.take(i)) + if is_group_door(cs[i]) {
            cs[i].children@.map_values(|g: TrieNode| g.segment@)
        } else {
            Seq::empty()
        },
{
    assert(cs.take(i + 1).drop_last() == cs.take(i));
}

/// Whether a node is a `-group` instruction node.
fn group_door(c: &TrieNode) -> (r: bool)
    ensures
        r == is_group_door(*c),
{
    match &c.class {
        NodeClass::Instruction { door, arg } => *door == '-' && str_eq(arg.as_str(), "group"),
        _ => false,
    }
}

/// The group names that an identity directory lists under its `-group` nodes.
fn collect_member_groups(node: &TrieNode) -> (r: Vec<String>)
    ensures
        strings_view(r@) == member_groups(node.children@),
{
    let mut names: Vec<String> = Vec::new();
    let mut i: usize = 0;
    while i < node.children.len()
        invariant
            i <= node.children@.len(),
            strings_view(names@) == member_groups(node.children@.take(i as int)),
        decreases node.children@.len() - i,
    {
        let child = &node.children[i];
        proof {
            lemma_member_groups_step(node.children@, i as int);
        }
        let ghost before = strings_view(names@);
        if group_door(child) {
            let mut k: usize = 0;
            while k < child.children.len()
                invariant
                    k <= child.children@.len(),
                    strings_view(names@) == before + child.children@.take(k as int).map_values(|g: TrieNode| g.segment@),
                decreases child.children@.len() - k,
            {
                let ghost mid = strings_view(names@);
                names.push(child.children[k].segment.clone());
                assert(strings_view(names@) =~= mid.push(child.children@[k as int].segment@));
                assert(child.children@.take(k + 1).map_values(|g: TrieNode| g.segment@)
                    =~= child.children@.take(k as int).map_values(|g: TrieNode| g.segment@).push(child.children@[k as int].segment@));
                k += 1;
            }
            assert(child.children@.take(child.children@.len() as int) == child.children@);
        } else {
            assert(strings_view(names@) =~= before + Seq::<Seq<char>>::empty());
        }
        i += 1;
    }
    assert(node.children@.take(node.children@.len() as int) == node.children@);
    names
}

/// Copies of the rules of a group.
fn clone_rules(v: &Vec<PermissionRule>) -> (r: Vec<PermissionRule>)
    ensures
        rules_view(r@) == rules_view(v@),
{
    let mut r: Vec<PermissionRule> = Vec::new();
    let mut i: usize = 0;
    while i < v.len()
        invariant
            i <= v@.len(),
            rules_view(r@) == rules_view(v@.take(i as int)),
        decreases v@.len() - i,
    {
        let ghost before = r@;
        let c = v[i].clone();
        assert(c@ == v@[i as int]@);
        r.push(c);
        assert(rules_view(r@) =~= rules_view(before).push(c@));
        assert(rules_view(v@.take(i + 1)) =~= rules_view(v@.take(i as int)).push(v@[i as int]@));
        i += 1;
    }
    assert(v@.take(v@.len() as int) == v@);
    r
}

proof fn lemma_inherited_step(groups: Map<Seq<char>, Seq<RuleView>>, names: Seq<Seq<char>>, i: int)
    requires
        0 <= i < names.len(),
    ensures
        inherited(groups, names.take(i + 1)) == inherited(groups, names.take(i)) + if groups.contains_key(names[i]) {
            groups[names[i]]
        } else {
            Seq::empty()
        },
{
    assert(names.take(i + 1).drop_last() == names.take(i));
}

/// The permissions of the identity whose directory is `node`.
fn load_identity(node: &TrieNode, id: u64, groups: &Vec<GroupRules>) -> (r: IdentityPermissions)
    requires
        group_names_unique(groups@),
    ensures
        r@ == identity_entry(*node, id, group_map(groups@)),
{
    let mut identity = Identity::from_name(node.segment.as_str(), id);
    identity.groups = collect_member_groups(node);
    let mut rules = extract_rules(node);
    let ghost direct = rules_view(rules@);
    let ghost names = strings_view(identity.groups@);
    let ghost gm = group_map(groups@);
    let mut i: usize = 0;
    while i < identity.groups.len()
        invariant
            group_names_unique(groups@),
            gm == group_map(groups@),
            names == strings_view(identity.groups@),
            i <= names.len(),
            rules_view(rules@) == direct + inherited(gm, names.take(i as int)),
        decreases names.len() - i,
    {
        proof {
            lemma_inherited_step(gm, names, i as int);
        }
        let ghost before = rules_view(rules@);
        match group_index(groups, identity.groups[i].as_str()) {
            Some(k) => {
                proof {
                    lemma_group_map_unique_lookup(groups@, k as int);
                }
                let mut extra = clone_rules(&groups[k].rules);
                let ghost ex = rules_view(extra@);
                rules.append(&mut extra);
                assert(rules_view(rules@) =~= before + ex);
            },
            None => {
                proof {
                    lemma_group_map_absent(groups@, names[i as int]);
                }
                assert(rules_view(rules@) =~= before + Seq::<RuleView>::empty());
            },
        }
        i += 1;
    }
    assert(names.take(names.len() as int) == names);
    IdentityPermissions { identity, rules }
}

proof fn lemma_identities_from_step(cs: Seq<TrieNode>, groups: Map<Seq<char>, Seq<RuleView>>, i: int)
    requires
        0 <= i < cs.len(),
    ensures
        identities_from(cs.take(i + 1), groups) == match crate::strings::parse_unsigned(cs[i].segment@, u64::MAX as nat) {
            Some(n) => identities_from(cs.take(i), groups).insert(n as u64, identity_entry(cs[i], n as u64, groups)),
            None => identities_from(cs.take(i), groups),
        },
{
    assert(cs.take(i + 1).drop_last() == cs.take(i));
}

/// Load the identities below `hard/identities`.
fn load_identities(trie: &Trie, groups: &Vec<GroupRules>) -> (r: std::collections::HashMap<u64, IdentityPermissions>)
    requires
        group_names_unique(groups@),
    ensures
        r@.map_values(|p: IdentityPermissions| p@) == match lookup(trie.root, identities_path()) {
            Some(n) => identities_from(n.children@, group_map(groups@)),
            None => Map::empty(),
        },
{
    let mut identities: std::collections::HashMap<u64, IdentityPermissions> = std::collections::HashMap::new();
    let path = vec!["hard", "identities"];
    assert(strs_view(path@) =~= identities_path());
    let node = match trie.get(path.as_slice()) {
        Some(n) => n,
        None => {
            assert(identities@.map_values(|p: IdentityPermissions| p@) =~= Map::empty());
            return identities;
        },
    };
    let ghost gm = group_map(groups@);
    assert(identities@.map_values(|p: IdentityPermissions| p@) =~= identities_from(node.children@.take(0), gm));
    let mut i: usize = 0;
    while i < node.children.len()
        invariant
            i <= node.children@.len(),
            group_names_unique(groups@),
            gm == group_map(groups@),
            identities@.map_values(|p: IdentityPermissions| p@) == identities_from(node.children@.take(i as int), gm),
        decreases node.children@.len() - i,
    {
        let child = &node.children[i];
        proof {
            lemma_identities_from_step(node.children@, gm, i as int);
        }
        match crate::strings::parse_unsigned_str(child.segment.as_str(), u64::MAX) {
            Some(id) => {
                let perms = load_identity(child, id, groups);
                let ghost before = identities@;
                let ghost pv = perms@;
                identities.insert(id, perms);
                assert(identities@.map_values(|p: IdentityPermissions| p@) =~= before.map_values(
                    |p: IdentityPermissions| p@,
                ).insert(id, pv));
            },
            None => {},
        }
        i += 1;
    }
    assert(node.children@.take(node.children@.len() as int) == node.children@);
    identities
}

/// Some rule of `verb` in `rules` matches `target`.
pub open spec fn any_rule(rules: Seq<RuleView>, verb: Verb, target: Seq<Seq<char>>) -> bool {
    exists|i: int| 0 <= i < rules.len() && (#[trigger] rules[i]).0 == verb && rule_matches(rules[i].1, target)
}

/// The outcome of a check (whether it allows, and the reason given):
/// an unknown identity is denied; for a known one a matching `§deny`
/// denies, else a matching `§own` allows, else a matching rule of the verb
/// allows, else it is denied (default deny, whatever the tier).
pub open spec fn check_spec(e: PermissionEngineView, id: u64, verb: Verb, target: Seq<Seq<char>>) -> (bool, Seq<char>) {
    if !e.identities.contains_key(id) {
        (false, "identity "@ + decimal(id as nat) + " not found"@)
    } else {
        let p = e.identities[id];
        let t = join_seq(target, "/"@);
        if any_rule(p.rules, Verb::Deny, target) {
            (false, "explicit §deny matching "@ + t)
        } else if any_rule(p.rules, Verb::Own, target) {
            (true, "§own matching "@ + t)
        } else if any_rule(p.rules, verb, target) {
            (true, "§"@ + verb_debug(verb) + " matching "@ + t)
        } else {
            (false, "no matching grant for "@ + verb_debug(verb) + " on "@ + t)
        }
    }
}

/// The result of a permission check.
#[derive(Debug, Clone, PartialEq, Eq)]
pub enum PermissionResult {
    Allow { reason: String },
    Deny { reason: String },
}

impl View for PermissionResult {
    type V = (bool, Seq<char>);

    open spec fn view(&self) -> (bool, Seq<char>) {
        match self {
            PermissionResult::Allow { reason } => (true, reason@),
            PermissionResult::Deny { reason } => (false, reason@),
        }
    }
}

impl PermissionResult {
    pub fn is_allowed(&self) -> (r: bool)
        ensures
            r == self@.0,
    {
        match self {
            PermissionResult::Allow { .. } => true,
            PermissionResult::Deny { .. } => false,
        }
    }

    pub fn is_denied(&self) -> (r: bool)
        ensures
            r == !self@.0,
    {
        match self {
            PermissionResult::Allow { .. } => false,
            PermissionResult::Deny { .. } => true,
        }
    }
}

/// Whether some rule of `verb` in `rules` matches `target`.
fn find_rule(rules: &Vec<PermissionRule>, verb: Verb, target: &[&str]) -> (r: bool)
    ensures
        r == any_rule(rules_view(rules@), verb, strs_view(target@)),
{
    let ghost rv = rules_view(rules@);
    let mut i: usize = 0;
    while i < rules.len()
        invariant
            rv == rules_view(rules@),
            i <= rules@.len(),
            forall|j: int| 0 <= j < i ==> !((#[trigger] rv[j]).0 == verb && rule_matches(rv[j].1, strs_view(target@))),
        decreases rules@.len() - i,
    {
        if rules[i].verb == verb && rules[i].matches(target) {
            assert(rv[i as int] == rules@[i as int]@);
            return true;
        }
        assert(rv[i as int] == rules@[i as int]@);
        i += 1;
    }
    false
}

impl PermissionEngine {
    #[verifier::type_invariant]
    spec fn inv(self) -> bool {
        group_names_unique(self.groups@)
    }

    /// Load all permissions from the trie: the groups below `hard/groups`,
    /// then the identities below `hard/identities` with their groups' rules.
    pub fn load(trie: &Trie) -> (e: PermissionEngine)
        ensures
            e@ == engine_model(trie.root),
    {
        let groups = load_groups(trie);
        let identities = load_identities(trie, &groups);
        PermissionEngine { identities, groups }
    }

    /// Check whether an identity may perform a verb on a target path.
    pub fn check(&self, identity_id: u64, verb: Verb, target: &[&str]) -> (r: PermissionResult)
        ensures
            r@ == check_spec(self@, identity_id, verb, strs_view(target@)),
    {
        let perms = match self.identities.get(&identity_id) {
            Some(p) => p,
            None => {
                let n = u64_to_string(identity_id);
                return PermissionResult::Deny { reason: concat3("identity ", n.as_str(), " not found") };
            },
        };
        assert(self@.identities[identity_id] == perms@);
        let joined = join_strs(target, "/");
        if find_rule(&perms.rules, Verb::Deny, target) {
            return PermissionResult::Deny { reason: concat("explicit §deny matching ", joined.as_str()) };
        }
        if find_rule(&perms.rules, Verb::Own, target) {
            return PermissionResult::Allow { reason: concat("§own matching ", joined.as_str()) };
        }
        if find_rule(&perms.rules, verb, target) {
            let head = concat("§", verb.debug_name());
            return PermissionResult::Allow { reason: concat3(head.as_str(), " matching ", joined.as_str()) };
        }
        let head = concat("no matching grant for ", verb.debug_name());
        PermissionResult::Deny { reason: concat3(head.as_str(), " on ", joined.as_str()) }
    }

    /// The permissions of one identity, if it was loaded.
    pub fn get_identity(&self, id: u64) -> (r: Option<&IdentityPermissions>)
        ensures
            match r {
                Some(p) => self@.identities.contains_key(id) && self@.identities[id] == p@,
                None => !self@.identities.contains_key(id),
            },
    {
        self.identities.get(&id)
    }

    /// The rules of one group, if it was loaded.
    pub fn get_group(&self, name: &str) -> (r: Option<&Vec<PermissionRule>>)
        ensures
            match r {
                Some(v) => self@.groups.contains_key(name@) && self@.groups[name@] == rules_view(v@),
                None => !self@.groups.contains_key(name@),
            },
    {
        proof {
            use_type_invariant(self);
        }
        match group_index(&self.groups, name) {
            Some(k) => {
                proof {
                    lemma_group_map_unique_lookup(self.groups@, k as int);
                }
                Some(&self.groups[k].rules)
            },
            None => {
                proof {
                    lemma_group_map_absent(self.groups@, name@);
                }
                None
            },
        }
    }

    /// The number of loaded identities.
    pub fn identity_count(&self) -> (n: usize)
        ensures
            n == self@.identities.dom().len(),
    {
        assert(self@.identities.dom() =~= self.identities@.dom());
        self.identities.len()
    }

    /// The number of loaded groups.
    pub fn group_count(&self) -> (n: usize)
        ensures
            n == self@.groups.dom().len(),
    {
        proof {
            use_type_invariant(self);
            lemma_group_map_len(self.groups@);
        }
        self.groups.len()
    }
}

// ---------------------------------------------------------------------------
// Laws of resolution
// ---------------------------------------------------------------------------

/// Deny always wins: for a loaded identity, a matching `§deny` rule denies
/// every verb, whatever else is granted.
pub proof fn lemma_deny_always_wins(e: PermissionEngineView, id: u64, verb: Verb, target: Seq<Seq<char>>)
    requires
        e.identities.contains_key(id),
        any_rule(e.identities[id].rules, Verb::Deny, target),
    ensures
        !check_spec(e, id, verb, target).0,
{
}

/// Own implies every verb: for a loaded identity with no matching `§deny`,
/// a matching `§own` rule allows every verb.
pub proof fn lemma_own_implies_every_verb(e: PermissionEngineView, id: u64, verb: Verb, target: Seq<Seq<char>>)
    requires
        e.identities.contains_key(id),
        !any_rule(e.identities[id].rules, Verb::Deny, target),
        any_rule(e.identities[id].rules, Verb::Own, target),
    ensures
        check_spec(e, id, verb, target).0,
{
}

/// A grant allows its verb: for a loaded identity with no matching `§deny`,
/// a matching rule of the verb allows it.
pub proof fn lemma_grant_allows(e: PermissionEngineView, id: u64, verb: Verb, target: Seq<Seq<char>>)
    requires
        e.identities.contains_key(id),
        !any_rule(e.identities[id].rules, Verb::Deny, target),
        any_rule(e.identities[id].rules, verb, target),
    ensures
        check_spec(e, id, verb, target).0,
{
}

/// Default deny: a loaded identity of any tier, with no matching `§own` or
/// rule of the verb, is denied.
pub proof fn lemma_default_deny(e: PermissionEngineView, id: u64, verb: Verb, target: Seq<Seq<char>>)
    requires
        e.identities.contains_key(id),
        !any_rule(e.identities[id].rules, Verb::Own, target),
        !any_rule(e.identities[id].rules, verb, target),
    ensures
        !check_spec(e, id, verb, target).0,
{
}

/// An identity that was not loaded is denied every verb on every path.
pub proof fn lemma_unknown_identity(e: PermissionEngineView, id: u64, verb: Verb, target: Seq<Seq<char>>)
    requires
        !e.identities.contains_key(id),
    ensures
        !check_spec(e, id, verb, target).0,
{
}

/// The wildcard rule `_` matches every path, the empty one included.
pub proof fn lemma_wildcard_matches_everything(path: Seq<Seq<char>>)
    ensures
        rule_matches(seq![wildcard()], path),
{
}

/// A target matches every path it fits segment by segment, where a `_`
/// segment stands for any segment: a `§write/jobs/_` rule covers `jobs/1`.
pub proof fn lemma_segmentwise_match(target: Seq<Seq<char>>, path: Seq<Seq<char>>)
    requires
        target.len() <= path.len(),
        forall|i: int| 0 <= i < target.len() ==> (#[trigger] target[i]) == seq!['_'] || target[i] == path[i],
    ensures
        rule_matches(target, path),
{
}

/// Apart from the lone `_`, a target never matches a path shorter than
/// itself, nor one that differs from it at a segment that is not `_`.
pub proof fn lemma_mismatch_does_not_match(target: Seq<Seq<char>>, path: Seq<Seq<char>>, i: int)
    requires
        !(target.len() == 1 && target[0] == seq!['_']),
        target.len() > path.len() || (0 <= i < target.len() && i < path.len() && target[i] != seq!['_'] && target[i] != path[i]),
    ensures
        !rule_matches(target, path),
{
}

/// The lone `_` matches every path, the empty one included.
pub proof fn lemma_lone_wildcard_matches(path: Seq<Seq<char>>)
    ensures
        rule_matches(seq![seq!['_']], path),
{
    assert(seq![seq!['_']][0] == wildcard());
}

/// A target of literal segments only (no `_`) matches exactly the paths it
/// is a prefix of.
pub proof fn lemma_literal_target_is_prefix(target: Seq<Seq<char>>, path: Seq<Seq<char>>)
    requires
        forall|i: int| 0 <= i < target.len() ==> (#[trigger] target[i]) != seq!['_'],
    ensures
        rule_matches(target, path) <==> (target.len() <= path.len() && path.take(target.len() as int) == target),
{
    if rule_matches(target, path) {
        if target.len() == 1 && target[0] == wildcard() {
            assert(target[0] != seq!['_']);
        }
        assert(path.take(target.len() as int) =~= target);
    }
    if target.len() <= path.len() && path.take(target.len() as int) == target {
        assert forall|i: int| 0 <= i < target.len() implies (#[trigger] target[i]) == wildcard() || target[i] == path[i] by {
            assert(path.take(target.len() as int)[i] == path[i]);
        }
    }
}

/// A rule that matches a path matches every path below it.
pub proof fn lemma_match_extends(target: Seq<Seq<char>>, path: Seq<Seq<char>>, longer: Seq<Seq<char>>)
    requires
        rule_matches(target, path),
        path.len() <= longer.len(),
        longer.take(path.len() as int) == path,
    ensures
        rule_matches(target, longer),
{
    if !(target.len() == 1 && target[0] == wildcard()) {
        assert forall|i: int| 0 <= i < target.len() implies (#[trigger] target[i]) == wildcard() || target[i] == longer[i] by {
            assert(longer.take(path.len() as int)[i] == longer[i]);
        }
    }
}

/// An identity holds the rules of every loaded group it names.
pub proof fn lemma_group_rules_inherited(groups: Map<Seq<char>, Seq<RuleView>>, names: Seq<Seq<char>>, k: int, j: int)
    requires
        0 <= k < names.len(),
        groups.contains_key(names[k]),
        0 <= j < groups[names[k]].len(),
    ensures
        inherited(groups, names).contains(groups[names[k]][j]),
    decreases names.len(),
{
    let pre = names.drop_last();
    if k < names.len() - 1 {
        assert(pre[k] == names[k]);
        lemma_group_rules_inherited(groups, pre, k, j);
        let w = choose|x: int| 0 <= x < inherited(groups, pre).len() && inherited(groups, pre)[x] == groups[names[k]][j];
        assert(inherited(groups, names)[w] == groups[names[k]][j]);
    } else {
        let base = inherited(groups, pre).len();
        assert(inherited(groups, names)[base + j] == groups[names[k]][j]);
    }
}

} // verus!
