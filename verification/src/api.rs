//! The decisions of the socket API: reading request paths, the effect of a
//! write request, the password check of `authenticate`, and the plan of
//! `create_identity`. Sending and receiving JSON stays with the server.
use vstd::prelude::*;
use crate::auth::{argon2_verify_outcome, filename_to_hash, hash_password, hash_to_filename, replace_char, verify_password};
use crate::effector::{Effect, EffectView, effects_view};
use crate::error::{error_message, PithError};
use crate::identity::{tier_debug, PrivilegeTier};
use crate::parser::{split_seq, split_str, NodeClass, NodeClassView};
use crate::session::{authenticated_table, SessionContext, SessionManager};
use crate::strings::{concat, concat3, decimal, owned, parse_unsigned, parse_unsigned_str, str_eq, strings_view, strs_view, u64_to_string};
use crate::trie::{lookup, Trie, TrieNode};

verus! {

/// The segments of a request path: its `/`-separated pieces, empty ones
/// dropped.
pub open spec fn request_segments(path: Seq<char>) -> Seq<Seq<char>> {
    split_seq(path, '/').filter(|p: Seq<char>| p.len() > 0)
}

/// Split a request path into its non-empty segments.
pub fn path_segments(path: &str) -> (r: Vec<String>)
    ensures
        strings_view(r@) == request_segments(path@),
{
    let pieces = split_str(path, '/');
    let ghost ps = strings_view(pieces@);
    let mut r: Vec<String> = Vec::new();
    let mut i: usize = 0;
    while i < pieces.len()
        invariant
            i <= pieces@.len(),
            ps == strings_view(pieces@),
            strings_view(r@) == ps.take(i as int).filter(|p: Seq<char>| p.len() > 0),
        decreases pieces@.len() - i,
    {
        let ghost pre = ps.take(i as int);
        assert(ps.take(i + 1) == pre.push(ps[i as int]));
        proof {
            pre.lemma_filter_push(ps[i as int], |p: Seq<char>| p.len() > 0);
        }
        assert(ps[i as int] == pieces@[i as int]@);
        if pieces[i].as_str().unicode_len() > 0 {
            let ghost before = r@;
            r.push(pieces[i].clone());
            proof {
                crate::strings::lemma_strings_view_push(before, pieces@[i as int]);
            }
        }
        i += 1;
    }
    assert(ps.take(ps.len() as int) == ps);
    r
}

/// The effect a write request asks for, or why it is refused: `touch`,
/// `mkdir` and `rm` need a path; `mv` needs a source path and a target.
pub open spec fn write_request(op: Seq<char>, path: Seq<char>, to: Option<Seq<char>>) -> Result<EffectView, Seq<char>> {
    if op == "touch"@ {
        if path.len() == 0 { Err("Path required for touch"@) } else { Ok(EffectView::Touch(path)) }
    } else if op == "mkdir"@ {
        if path.len() == 0 { Err("Path required for mkdir"@) } else { Ok(EffectView::MakeDir(path)) }
    } else if op == "rm"@ {
        if path.len() == 0 { Err("Path required for rm"@) } else { Ok(EffectView::Remove(path)) }
    } else if op == "mv"@ {
        if path.len() == 0 {
            Err("Path required for mv (source)"@)
        } else {
            match to {
                Some(t) => Ok(EffectView::Move(path, t)),
                None => Err("args.to required for mv"@),
            }
        }
    } else {
        Err("Unknown operation: "@ + op)
    }
}

/// Any other operation is refused as unknown, whatever the path.
pub proof fn lemma_other_ops_are_unknown(op: Seq<char>, path: Seq<char>, to: Option<Seq<char>>)
    requires
        op != "touch"@ && op != "mkdir"@ && op != "rm"@ && op != "mv"@,
    ensures
        write_request(op, path, to) == Err::<EffectView, Seq<char>>("Unknown operation: "@ + op),
{
}

/// Each write operation asks for its own kind of effect on a non-empty
/// path: `touch` a file, `mkdir` a directory, `rm` a removal, and `mv` (with
/// a target) a move from the path to the target.
pub proof fn lemma_write_ops_give_their_effects(path: Seq<char>, to: Option<Seq<char>>, t: Seq<char>)
    requires
        path.len() > 0,
    ensures
        write_request("touch"@, path, to) == Ok::<EffectView, Seq<char>>(EffectView::Touch(path)),
        write_request("mkdir"@, path, to) == Ok::<EffectView, Seq<char>>(EffectView::MakeDir(path)),
        write_request("rm"@, path, to) == Ok::<EffectView, Seq<char>>(EffectView::Remove(path)),
        write_request("mv"@, path, Some(t)) == Ok::<EffectView, Seq<char>>(EffectView::Move(path, t)),
        write_request("mv"@, path, None) is Err,
        write_request("touch"@, Seq::empty(), to) is Err,
        write_request("mkdir"@, Seq::empty(), to) is Err,
        write_request("rm"@, Seq::empty(), to) is Err,
        write_request("mv"@, Seq::empty(), to) is Err,
{
    reveal_strlit("touch");
    reveal_strlit("mkdir");
    reveal_strlit("rm");
    reveal_strlit("mv");
    assert("mkdir"@ != "touch"@) by {
        assert("mkdir"@[0] != "touch"@[0]);
    }
    assert("rm"@ != "touch"@) by {
        assert("rm"@.len() != "touch"@.len());
    }
    assert("rm"@ != "mkdir"@) by {
        assert("rm"@.len() != "mkdir"@.len());
    }
    assert("mv"@ != "touch"@) by {
        assert("mv"@.len() != "touch"@.len());
    }
    assert("mv"@ != "mkdir"@) by {
        assert("mv"@.len() != "mkdir"@.len());
    }
    assert("mv"@ != "rm"@) by {
        assert("mv"@[1] != "rm"@[1]);
    }
}

/// The effect of a write request, or the message refusing it.
pub fn write_effect(op: &str, path: &str, to: Option<&str>) -> (r: Result<Effect, String>)
    ensures
        match (r, write_request(op@, path@, match to {
            Some(t) => Some(t@),
            None => None,
        })) {
            (Ok(e), Ok(v)) => e@ == v,
            (Err(m), Err(w)) => m@ == w,
            _ => false,
        },
{
    let empty = path.unicode_len() == 0;
    if str_eq(op, "touch") {
        if empty { Err(owned("Path required for touch")) } else { Ok(Effect::Touch { path: owned(path) }) }
    } else if str_eq(op, "mkdir") {
        if empty { Err(owned("Path required for mkdir")) } else { Ok(Effect::MakeDir { path: owned(path) }) }
    } else if str_eq(op, "rm") {
        if empty { Err(owned("Path required for rm")) } else { Ok(Effect::Remove { path: owned(path) }) }
    } else if str_eq(op, "mv") {
        if empty {
            Err(owned("Path required for mv (source)"))
        } else {
            match to {
                Some(t) => Ok(Effect::Move { from: owned(path), to: owned(t) }),
                None => Err(owned("args.to required for mv")),
            }
        }
    } else {
        Err(concat("Unknown operation: ", op))
    }
}

// ---------------------------------------------------------------------------
// authenticate
// ---------------------------------------------------------------------------

/// Whether a node is a `-secret` node with a hash file below it.
pub open spec fn secret_node(c: TrieNode) -> bool {
    crate::boot::holds_secret(c)
}

/// The first `-secret` node among `cs` that holds a hash, if any.
pub open spec fn first_secret(cs: Seq<TrieNode>) -> Option<TrieNode>
    decreases cs.len(),
{
    if cs.len() == 0 {
        None
    } else if secret_node(cs[0]) {
        Some(cs[0])
    } else {
        first_secret(cs.drop_first())
    }
}

/// Where `authenticate` finds the password to check, or why it cannot: the
/// identity name must be a number, the identity must exist below
/// `hard/identities`, and it must hold a hash below `-secret/`; the hash is
/// the decoded name of the first file there.
pub open spec fn auth_target(identity: Seq<char>, root: TrieNode) -> Result<(u64, Seq<char>), Seq<char>> {
    match parse_unsigned(identity, u64::MAX as nat) {
        None => Err("invalid identity id (must be numeric)"@),
        Some(id) => match lookup(root, seq!["hard"@, "identities"@, identity]) {
            None => Err("identity "@ + identity + " not found"@),
            Some(node) => match first_secret(node.children@) {
                None => Err("identity has no password set"@),
                Some(s) => Ok((id as u64, replace_char(s.children@[0].segment@, '.', '$'))),
            },
        },
    }
}

/// Find the identity number and the PHC hash to check a password against.
pub fn find_password_hash(identity: &str, trie: &Trie) -> (r: Result<(u64, String), String>)
    ensures
        match (r, auth_target(identity@, trie.root)) {
            (Ok((id, h)), Ok((id2, h2))) => id == id2 && h@ == h2,
            (Err(m), Err(w)) => m@ == w,
            _ => false,
        },
{
    let id = match parse_unsigned_str(identity, u64::MAX) {
        Some(n) => n,
        None => {
            return Err(owned("invalid identity id (must be numeric)"));
        },
    };
    let path = vec!["hard", "identities", identity];
    assert(strs_view(path@) =~= seq!["hard"@, "identities"@, identity@]);
    let node = match trie.get(path.as_slice()) {
        Some(n) => n,
        None => {
            return Err(concat3("identity ", identity, " not found"));
        },
    };
    let ghost cs = node.children@;
    let mut i: usize = 0;
    assert(cs.skip(0) == cs);
    while i < node.children.len()
        invariant
            i <= cs.len(),
            cs == node.children@,
            parse_unsigned(identity@, u64::MAX as nat) == Some(id as nat),
            lookup(trie.root, seq!["hard"@, "identities"@, identity@]) == Some(*node),
            first_secret(cs) == first_secret(cs.skip(i as int)),
        decreases cs.len() - i,
    {
        let c = &node.children[i];
        assert(cs.skip(i as int)[0] == *c);
        assert(cs.skip(i as int).drop_first() == cs.skip(i + 1));
        let secret = match &c.class {
            NodeClass::Instruction { door, arg } => *door == '-' && str_eq(arg.as_str(), "secret") && c.children.len() > 0,
            _ => false,
        };
        if secret {
            assert(secret_node(*c));
            assert(first_secret(cs.skip(i as int)) == Some(*c));
            let phc = filename_to_hash(c.children[0].segment.as_str());
            return Ok((id, phc));
        }
        i += 1;
    }
    assert(cs.skip(i as int).len() == 0);
    Err(owned("identity has no password set"))
}

proof fn lemma_auth_target_id(identity: Seq<char>, root: TrieNode)
    ensures
        auth_target(identity, root) matches Ok((id, h)) ==> parse_unsigned(identity, u64::MAX as nat) == Some(id as nat),
{
}

/// The request arguments `authenticate` reads, or why they are missing.
pub open spec fn auth_arguments(has_args: bool, identity: Option<Seq<char>>, password: Option<Seq<char>>) -> Result<(Seq<char>, Seq<char>), Seq<char>> {
    if !has_args {
        Err("args required for authenticate"@)
    } else {
        match identity {
            None => Err("args.identity required"@),
            Some(i) => match password {
                None => Err("args.password required"@),
                Some(p) => Ok((i, p)),
            },
        }
    }
}

/// The view of an optional string slice.
pub open spec fn str_opt(o: Option<&str>) -> Option<Seq<char>> {
    match o {
        Some(s) => Some(s@),
        None => None,
    }
}

/// The start of the answer when the stored hash is not a PHC string.
pub open spec fn bad_hash_answer() -> Seq<char> {
    "authentication error: "@ + "Authentication error: "@ + "invalid hash format: "@
}

/// Whether `r` is the answer to checking `password` for `identity` against
/// the trie: why no hash can be found, or, against the hash found, the
/// identity number and the tier its name gives when argon2 accepts the
/// password, `invalid password` when it refuses it, and an authentication
/// error when the hash is not a PHC string.
pub open spec fn auth_answer(identity: Seq<char>, password: Seq<char>, root: TrieNode, r: Result<(u64, PrivilegeTier), String>) -> bool {
    match auth_target(identity, root) {
        Err(w) => r matches Err(m) && m@ == w,
        Ok((id, h)) => match argon2_verify_outcome(password, h) {
            Some(true) => r == Ok::<(u64, PrivilegeTier), String>((id, PrivilegeTier::spec_from_name(identity))),
            Some(false) => r matches Err(m) && m@ == "invalid password"@,
            None => r matches Err(m) && crate::strings::is_prefix(bad_hash_answer(), m@),
        },
    }
}

/// Check `password` for `identity` against the hash the trie holds.
pub fn authenticate_against(identity: &str, password: &str, trie: &Trie) -> (r: Result<(u64, PrivilegeTier), String>)
    ensures
        auth_answer(identity@, password@, trie.root, r),
{
    let (id, phc) = match find_password_hash(identity, trie) {
        Ok(t) => t,
        Err(m) => {
            return Err(m);
        },
    };
    proof {
        lemma_auth_target_id(identity@, trie.root);
    }
    match verify_password(password, phc.as_str()) {
        Ok(true) => Ok((id, PrivilegeTier::from_name(identity))),
        Ok(false) => Err(owned("invalid password")),
        Err(e) => {
            let m = e.message();
            let msg = concat("authentication error: ", m.as_str());
            proof {
                let reason = e->Auth_reason;
                let a = "authentication error: "@;
                let b = "Authentication error: "@;
                let c = "invalid hash format: "@;
                assert(msg@ =~= a + (b + reason@));
                assert(reason@.subrange(0, c.len() as int) == c);
                assert forall|k: int| 0 <= k < bad_hash_answer().len() implies msg@[k] == bad_hash_answer()[k] by {
                    if k >= a.len() + b.len() {
                        assert(reason@.subrange(0, c.len() as int)[k - a.len() - b.len()] == reason@[k - a.len() - b.len()]);
                    }
                }
                assert(msg@.subrange(0, bad_hash_answer().len() as int) =~= bad_hash_answer());
            }
            Err(msg)
        },
    }
}

/// Authenticate a session: check the password against the identity's hash
/// in `trie` (the trie as read under its lock) and, when it verifies,
/// switch the session to that identity in `manager` (the session manager
/// as its lock holder sees it). Missing arguments are refused first; every
/// refusal leaves the sessions alone.
pub fn handle_authenticate(
    has_args: bool,
    identity: Option<&str>,
    password: Option<&str>,
    trie: &Trie,
    ctx: &SessionContext,
    manager: &mut SessionManager,
) -> (r: Result<(u64, PrivilegeTier), String>)
    ensures
        match auth_arguments(has_args, str_opt(identity), str_opt(password)) {
            Err(w) => r matches Err(m) && m@ == w,
            Ok((i, p)) => auth_answer(i, p, trie.root, r),
        },
        final(manager).sessions() == match r {
            Ok((id, _)) => authenticated_table(old(manager).sessions(), ctx.session_id, id),
            Err(_) => old(manager).sessions(),
        },
        final(manager).uids() == old(manager).uids(),
{
    if !has_args {
        return Err(owned("args required for authenticate"));
    }
    let identity = match identity {
        Some(i) => i,
        None => {
            return Err(owned("args.identity required"));
        },
    };
    let password = match password {
        Some(p) => p,
        None => {
            return Err(owned("args.password required"));
        },
    };
    let r = authenticate_against(identity, password, trie);
    match r {
        Ok((id, _)) => {
            manager.authenticate_session(ctx.session_id, id);
        },
        Err(_) => {},
    }
    r
}

// ---------------------------------------------------------------------------
// create_identity
// ---------------------------------------------------------------------------

/// The arguments of `create_identity`, each as the request gave it: a
/// missing or mistyped argument is `None`; a group that is not a string is
/// `None` in its place.
#[derive(Debug, Clone)]
pub struct NewIdentity {
    pub id: Option<String>,
    pub name: Option<String>,
    pub groups: Option<Vec<Option<String>>>,
    pub password: Option<String>,
    pub uid: Option<u64>,
}

/// The rank of a tier: omni is 0, the most privileged; digital consciousness 9.
pub open spec fn tier_rank(t: PrivilegeTier) -> int {
    match t {
        PrivilegeTier::Omni => 0,
        PrivilegeTier::Shadow => 1,
        PrivilegeTier::Superroot => 2,
        PrivilegeTier::Root => 3,
        PrivilegeTier::Admin => 4,
        PrivilegeTier::Permissioned => 5,
        PrivilegeTier::User => 6,
        PrivilegeTier::Shared => 7,
        PrivilegeTier::Guest => 8,
        PrivilegeTier::DigitalConsciousness => 9,
    }
}

fn rank(t: PrivilegeTier) -> (r: u8)
    ensures
        r == tier_rank(t),
{
    match t {
        PrivilegeTier::Omni => 0,
        PrivilegeTier::Shadow => 1,
        PrivilegeTier::Superroot => 2,
        PrivilegeTier::Root => 3,
        PrivilegeTier::Admin => 4,
        PrivilegeTier::Permissioned => 5,
        PrivilegeTier::User => 6,
        PrivilegeTier::Shared => 7,
        PrivilegeTier::Guest => 8,
        PrivilegeTier::DigitalConsciousness => 9,
    }
}

/// The effects that create an identity directory `base`: the directory and
/// its type, then as given its name, its groups (the string ones), its
/// password hash stored as a file name, and its UID.
pub open spec fn identity_effects(
    base: Seq<char>,
    name: Option<Seq<char>>,
    groups: Option<Seq<Option<Seq<char>>>>,
    secret: Option<Seq<char>>,
    uid: Option<u64>,
) -> Seq<EffectView> {
    seq![
        EffectView::MakeDir(base),
        EffectView::MakeDir(base + "/-expected/type"@),
        EffectView::Touch(base + "/-expected/type/identity"@),
    ] + (match name {
        Some(n) => seq![EffectView::MakeDir(base + "/-name"@), EffectView::Touch(base + "/-name/"@ + n)],
        None => Seq::empty(),
    }) + (match groups {
        Some(gs) => seq![EffectView::MakeDir(base + "/-group"@)] + group_touches(base, gs),
        None => Seq::empty(),
    }) + (match secret {
        Some(f) => seq![EffectView::MakeDir(base + "/-secret"@), EffectView::Touch(base + "/-secret/"@ + f)],
        None => Seq::empty(),
    }) + (match uid {
        Some(u) => seq![EffectView::MakeDir(base + "/-uid"@), EffectView::Touch(base + "/-uid/"@ + decimal(u as nat))],
        None => Seq::empty(),
    })
}

/// One group membership file per string group, in order.
pub open spec fn group_touches(base: Seq<char>, gs: Seq<Option<Seq<char>>>) -> Seq<EffectView>
    decreases gs.len(),
{
    if gs.len() == 0 {
        Seq::empty()
    } else {
        group_touches(base, gs.drop_last()) + match gs.last() {
            Some(g) => seq![EffectView::Touch(base + "/-group/"@ + g)],
            None => Seq::empty(),
        }
    }
}

/// The view of an optional string.
pub open spec fn opt_view(o: Option<String>) -> Option<Seq<char>> {
    match o {
        Some(s) => Some(s@),
        None => None,
    }
}

/// The views of optional group names.
pub open spec fn groups_view(o: Option<Vec<Option<String>>>) -> Option<Seq<Option<Seq<char>>>> {
    match o {
        Some(v) => Some(v@.map_values(|g: Option<String>| opt_view(g))),
        None => None,
    }
}

/// The first name among the identity directories `cs` (in name order) that
/// reads as the number `id`.
pub open spec fn identity_name_in(cs: Seq<TrieNode>, id: u64) -> Option<Seq<char>>
    decreases cs.len(),
{
    if cs.len() == 0 {
        None
    } else if parse_unsigned(cs[0].segment@, u64::MAX as nat) == Some(id as nat) {
        Some(cs[0].segment@)
    } else {
        identity_name_in(cs.drop_first(), id)
    }
}

/// The name of the identity numbered `id` as it is written below
/// `hard/identities` (leading zeros kept, as in `001`); the plain decimal
/// form of `id` when no directory there names it.
pub open spec fn identity_name(root: TrieNode, id: u64) -> Seq<char> {
    match lookup(root, seq!["hard"@, "identities"@]) {
        Some(n) => match identity_name_in(n.children@, id) {
            Some(name) => name,
            None => decimal(id as nat),
        },
        None => decimal(id as nat),
    }
}

/// Why `create_identity` refuses before building anything, if it does:
/// the caller must be of the admin tier or above (the tier of the first
/// digit of its identity's name), the arguments and a numeric `id` must be
/// given, and no identity of that name may exist.
pub open spec fn create_refusal(caller_id: u64, args: Option<NewIdentity>, root: TrieNode) -> Option<Seq<char>> {
    let tier = PrivilegeTier::spec_from_name(identity_name(root, caller_id));
    if tier_rank(tier) > 4 {
        Some("create_identity requires Admin tier or higher (caller is "@ + tier_debug(tier) + ")"@)
    } else {
        match args {
            None => Some("args required for create_identity"@),
            Some(a) => match a.id {
                None => Some("args.id required (e.g. \"601\")"@),
                Some(id) => if parse_unsigned(id@, u64::MAX as nat) is None {
                    Some("args.id must be numeric"@)
                } else if lookup(root, seq!["hard"@, "identities"@, id@]) is Some {
                    Some("identity "@ + id@ + " already exists"@)
                } else {
                    None
                },
            },
        }
    }
}

/// An identity whose name (as written below `hard/identities`) starts with
/// a digit from 0 to 4 (omni down to admin) may create identities: with a
/// new numeric id, nothing refuses it.
pub proof fn lemma_admin_or_higher_may_create(caller_id: u64, a: NewIdentity, root: TrieNode)
    requires
        identity_name(root, caller_id).len() > 0,
        '0' <= identity_name(root, caller_id)[0] <= '4',
        a.id is Some,
        parse_unsigned(a.id->0@, u64::MAX as nat) is Some,
        lookup(root, seq!["hard"@, "identities"@, a.id->0@]) is None,
    ensures
        create_refusal(caller_id, Some(a), root) is None,
{
    let c = identity_name(root, caller_id)[0];
    assert(c == '0' || c == '1' || c == '2' || c == '3' || c == '4');
}

/// Every other identity is refused, whatever it asks: a name starting with a
/// digit from 5 to 9 (permissioned down to digital consciousness), or with
/// anything else.
pub proof fn lemma_below_admin_is_refused(caller_id: u64, args: Option<NewIdentity>, root: TrieNode)
    requires
        !(identity_name(root, caller_id).len() > 0 && '0' <= identity_name(root, caller_id)[0] <= '4'),
    ensures
        create_refusal(caller_id, args, root) is Some,
{
    let name = identity_name(root, caller_id);
    if name.len() > 0 && '0' <= name[0] <= '9' {
        let c = name[0];
        assert(c == '5' || c == '6' || c == '7' || c == '8' || c == '9');
    }
}

fn push_group_touches(base: &str, groups: &Vec<Option<String>>, effects: &mut Vec<Effect>)
    ensures
        effects_view(final(effects)@) == effects_view(old(effects)@) + group_touches(
            base@,
            groups@.map_values(|g: Option<String>| opt_view(g)),
        ),
{
    let ghost start = effects_view(effects@);
    let ghost gs = groups@.map_values(|g: Option<String>| opt_view(g));
    let mut i: usize = 0;
    while i < groups.len()
        invariant
            i <= groups@.len(),
            gs == groups@.map_values(|g: Option<String>| opt_view(g)),
            effects_view(effects@) == start + group_touches(base@, gs.take(i as int)),
        decreases groups@.len() - i,
    {
        assert(gs.take(i + 1).drop_last() == gs.take(i as int));
        assert(gs.take(i + 1).last() == opt_view(groups@[i as int]));
        let ghost before = effects_view(effects@);
        match &groups[i] {
            Some(g) => {
                let e = Effect::Touch { path: concat3(base, "/-group/", g.as_str()) };
                let ghost raw = effects@;
                effects.push(e);
                assert(effects@ == raw.push(e));
                assert(effects_view(effects@) =~= before.push(e@));
                assert(effects_view(effects@) =~= start + group_touches(base@, gs.take(i + 1)));
            },
            None => {
                assert(effects_view(effects@) =~= start + group_touches(base@, gs.take(i + 1)));
            },
        }
        i += 1;
    }
    assert(gs.take(gs.len() as int) == gs);
}

/// The name of the identity numbered `id`, as the trie writes it.
pub fn identity_name_of(trie: &Trie, id: u64) -> (r: String)
    ensures
        r@ == identity_name(trie.root, id),
{
    let path = vec!["hard", "identities"];
    assert(strs_view(path@) =~= seq!["hard"@, "identities"@]);
    let node = match trie.get(path.as_slice()) {
        Some(n) => n,
        None => {
            return u64_to_string(id);
        },
    };
    let ghost cs = node.children@;
    assert(cs.skip(0) =~= cs);
    let mut i: usize = 0;
    while i < node.children.len()
        invariant
            cs == node.children@,
            lookup(trie.root, seq!["hard"@, "identities"@]) == Some(*node),
            i <= cs.len(),
            identity_name_in(cs, id) == identity_name_in(cs.skip(i as int), id),
        decreases cs.len() - i,
    {
        assert(cs.skip(i as int)[0] == cs[i as int]);
        assert(cs.skip(i as int).drop_first() =~= cs.skip(i + 1));
        let seg = node.children[i].segment.as_str();
        match parse_unsigned_str(seg, u64::MAX) {
            Some(v) => {
                if v == id {
                    assert(identity_name_in(cs.skip(i as int), id) == Some(seg@));
                    return owned(seg);
                }
            },
            None => {},
        }
        i += 1;
    }
    assert(cs.skip(cs.len() as int).len() == 0);
    u64_to_string(id)
}

/// The plan of `create_identity` for a caller: the effects that create the
/// identity, or the message refusing it. The password, when given, is
/// hashed with argon2id and stored as a file name; the plan holds a hash the
/// password verifies against. When nothing refuses, the plan succeeds,
/// unless hashing a password of 2^30 characters or more fails, which gives
/// a message starting `password hash failed: `.
pub fn plan_create_identity(caller_id: u64, args: Option<&NewIdentity>, trie: &Trie) -> (r: Result<Vec<Effect>, String>)
    ensures
        match create_refusal(caller_id, match args {
            Some(a) => Some(*a),
            None => None,
        }, trie.root) {
            Some(w) => r matches Err(m) && m@ == w,
            None => r matches Ok(v) ==> {
                let a = args->0;
                let base = "hard/identities/"@ + a.id->0@;
                match a.password {
                    None => effects_view(v@) == identity_effects(base, opt_view(a.name), groups_view(a.groups), None, a.uid),
                    Some(p) => exists|h: Seq<char>| #![trigger replace_char(h, '$', '.')]
                        argon2_verify_outcome(p@, h) == Some(true) && effects_view(v@) == identity_effects(
                            base,
                            opt_view(a.name),
                            groups_view(a.groups),
                            Some(replace_char(h, '$', '.')),
                            a.uid,
                        ),
                }
            },
        },
        create_refusal(caller_id, match args {
            Some(a) => Some(*a),
            None => None,
        }, trie.root) is None ==> match args->0.password {
            None => r is Ok,
            Some(p) => (p@.len() < 0x4000_0000 ==> r is Ok) && (r matches Err(m) ==> crate::strings::is_prefix(
                "password hash failed: "@,
                m@,
            )),
        },
{
    let caller_name = identity_name_of(trie, caller_id);
    let tier = PrivilegeTier::from_name(caller_name.as_str());
    if rank(tier) > 4 {
        return Err(crate::strings::concat3("create_identity requires Admin tier or higher (caller is ", tier.debug_name(), ")"));
    }
    let a = match args {
        Some(a) => a,
        None => {
            return Err(owned("args required for create_identity"));
        },
    };
    let id = match &a.id {
        Some(id) => id.as_str(),
        None => {
            return Err(owned("args.id required (e.g. \"601\")"));
        },
    };
    if parse_unsigned_str(id, u64::MAX).is_none() {
        return Err(owned("args.id must be numeric"));
    }
    let path = vec!["hard", "identities", id];
    assert(strs_view(path@) =~= seq!["hard"@, "identities"@, id@]);
    if trie.get(path.as_slice()).is_some() {
        return Err(concat3("identity ", id, " already exists"));
    }
    let base = concat("hard/identities/", id);
    let mut effects: Vec<Effect> = Vec::new();
    effects.push(Effect::MakeDir { path: base.clone() });
    effects.push(Effect::MakeDir { path: concat(base.as_str(), "/-expected/type") });
    effects.push(Effect::Touch { path: concat(base.as_str(), "/-expected/type/identity") });
    let ghost part1 = effects_view(effects@);
    assert(part1 =~= seq![
        EffectView::MakeDir(base@),
        EffectView::MakeDir(base@ + "/-expected/type"@),
        EffectView::Touch(base@ + "/-expected/type/identity"@),
    ]);
    match &a.name {
        Some(n) => {
            effects.push(Effect::MakeDir { path: concat(base.as_str(), "/-name") });
            effects.push(Effect::Touch { path: concat3(base.as_str(), "/-name/", n.as_str()) });
        },
        None => {},
    }
    let ghost part2 = effects_view(effects@);
    assert(part2 =~= part1 + match opt_view(a.name) {
        Some(n) => seq![EffectView::MakeDir(base@ + "/-name"@), EffectView::Touch(base@ + "/-name/"@ + n)],
        None => Seq::empty(),
    });
    match &a.groups {
        Some(gs) => {
            effects.push(Effect::MakeDir { path: concat(base.as_str(), "/-group") });
            let ghost mid = effects_view(effects@);
            assert(mid =~= part2.push(EffectView::MakeDir(base@ + "/-group"@)));
            push_group_touches(base.as_str(), gs, &mut effects);
            assert(effects_view(effects@) =~= part2 + (seq![EffectView::MakeDir(base@ + "/-group"@)] + group_touches(
                base@,
                gs@.map_values(|g: Option<String>| opt_view(g)),
            )));
        },
        None => {},
    }
    let ghost part3 = effects_view(effects@);
    assert(part3 =~= part2 + match groups_view(a.groups) {
        Some(gs) => seq![EffectView::MakeDir(base@ + "/-group"@)] + group_touches(base@, gs),
        None => Seq::empty(),
    });
    let ghost mut secret: Option<Seq<char>> = None;
    let ghost mut hash: Seq<char> = Seq::empty();
    match &a.password {
        Some(p) => {
            match hash_password(p.as_str()) {
                Ok(h) => {
                    let filename = hash_to_filename(h.as_str());
                    effects.push(Effect::MakeDir { path: concat(base.as_str(), "/-secret") });
                    effects.push(Effect::Touch { path: concat3(base.as_str(), "/-secret/", filename.as_str()) });
                    proof {
                        secret = Some(filename@);
                        hash = h@;
                    }
                },
                Err(e) => {
                    let m = e.message();
                    let msg = concat("password hash failed: ", m.as_str());
                    assert(msg@.subrange(0, "password hash failed: "@.len() as int) =~= "password hash failed: "@);
                    return Err(msg);
                },
            }
        },
        None => {},
    }
    let ghost part4 = effects_view(effects@);
    assert(part4 =~= part3 + match secret {
        Some(f) => seq![EffectView::MakeDir(base@ + "/-secret"@), EffectView::Touch(base@ + "/-secret/"@ + f)],
        None => Seq::empty(),
    });
    match a.uid {
        Some(u) => {
            let n = u64_to_string(u);
            effects.push(Effect::MakeDir { path: concat(base.as_str(), "/-uid") });
            effects.push(Effect::Touch { path: concat3(base.as_str(), "/-uid/", n.as_str()) });
        },
        None => {},
    }
    proof {
        let want = identity_effects(base@, opt_view(a.name), groups_view(a.groups), secret, a.uid);
        assert(effects_view(effects@) =~= want);
        if a.password is Some {
            assert(secret == Some(replace_char(hash, '$', '.')));
        }
    }
    Ok(effects)
}

} // verus!
