//! What boot decides: whether an administrator can log in, and which files
//! make up the administrator identity `001` on first boot.
use vstd::prelude::*;
use crate::auth::{argon2_verify_outcome, hash_password, hash_to_filename, replace_char};
use crate::error::PithError;
use crate::parser::{NodeClass, NodeClassView};
use crate::strings::{concat, owned, starts_with_char, str_eq, strings_view};
use crate::trie::{lookup, Trie, TrieNode};

verus! {

/// Whether a node is a `-secret` instruction node with a hash below it.
pub open spec fn holds_secret(c: TrieNode) -> bool {
    &&& c.class@ matches NodeClassView::Instruction { door, arg } && door == '-' && arg == "secret"@
    &&& c.children@.len() > 0
}

/// Whether an identity directory is of the omni tier (its name starts with
/// `0`) and holds a password.
pub open spec fn admin_with_password(c: TrieNode) -> bool {
    c.segment@.len() > 0 && c.segment@[0] == '0' && exists|j: int| 0 <= j < c.children@.len() && holds_secret(
        #[trigger] c.children@[j],
    )
}

/// Whether a child of `node` holds a password.
fn has_secret(node: &TrieNode) -> (r: bool)
    ensures
        r == exists|j: int| 0 <= j < node.children@.len() && holds_secret(#[trigger] node.children@[j]),
{
    let mut j: usize = 0;
    while j < node.children.len()
        invariant
            j <= node.children@.len(),
            forall|k: int| 0 <= k < j ==> !holds_secret(#[trigger] node.children@[k]),
        decreases node.children@.len() - j,
    {
        let c = &node.children[j];
        let secret = match &c.class {
            NodeClass::Instruction { door, arg } => *door == '-' && str_eq(arg.as_str(), "secret") && c.children.len() > 0,
            _ => false,
        };
        if secret {
            return true;
        }
        j += 1;
    }
    false
}

/// Whether some omni-tier identity (`0xx`) below `hard/identities` has a
/// password under `-secret/`.
pub fn has_admin_with_password(trie: &Trie) -> (r: bool)
    ensures
        r == match lookup(trie.root, crate::permissions::identities_path()) {
            Some(n) => exists|i: int| 0 <= i < n.children@.len() && admin_with_password(#[trigger] n.children@[i]),
            None => false,
        },
{
    let path = vec!["hard", "identities"];
    assert(crate::strings::strs_view(path@) =~= crate::permissions::identities_path());
    let ids = match trie.get(path.as_slice()) {
        Some(n) => n,
        None => {
            return false;
        },
    };
    let mut i: usize = 0;
    while i < ids.children.len()
        invariant
            i <= ids.children@.len(),
            lookup(trie.root, crate::permissions::identities_path()) == Some(*ids),
            forall|k: int| 0 <= k < i ==> !admin_with_password(#[trigger] ids.children@[k]),
        decreases ids.children@.len() - i,
    {
        let c = &ids.children[i];
        if starts_with_char(c.segment.as_str(), '0') && has_secret(c) {
            assert(admin_with_password(ids.children@[i as int]));
            return true;
        }
        i += 1;
    }
    false
}

/// The files, below `hard/identities/001/`, that make up the administrator
/// identity: its type, its name `admin`, its password hash (as a file name)
/// and the four grants on everything.
pub open spec fn admin_files(hash_filename: Seq<char>) -> Seq<Seq<char>> {
    seq![
        "-expected/type/identity"@,
        "-name/admin"@,
        "-secret/"@ + hash_filename,
        "§read/_"@,
        "§write/_"@,
        "§execute/_"@,
        "§own/_"@,
    ]
}

/// The directory of the administrator identity.
pub open spec fn admin_base() -> Seq<char> {
    "hard/identities/001"@
}

/// The files to create, relative to the filesystem root, to provision the
/// administrator identity with `password`: each of its files below
/// `hard/identities/001/`, the password hashed with argon2id. It succeeds
/// for every password of fewer than 2^30 characters; a failed hash is an
/// authentication error whose reason starts `password hash failed: `.
pub fn provision_admin_paths(password: &str) -> (r: Result<Vec<String>, PithError>)
    ensures
        match r {
            Ok(v) => exists|h: Seq<char>| #![trigger replace_char(h, '$', '.')]
                argon2_verify_outcome(password@, h) == Some(true) && strings_view(v@) == admin_files(replace_char(h, '$', '.')).map_values(
                    |f: Seq<char>| admin_base() + "/"@ + f,
                ),
            Err(e) => e matches PithError::Auth { reason } && crate::strings::is_prefix("password hash failed: "@, reason@),
        },
        password@.len() < 0x4000_0000 ==> r is Ok,
{
    let phc = match hash_password(password) {
        Ok(h) => h,
        Err(e) => {
            return Err(e);
        },
    };
    let filename = hash_to_filename(phc.as_str());
    let secret = concat("-secret/", filename.as_str());
    let files = vec![
        owned("-expected/type/identity"),
        owned("-name/admin"),
        secret,
        owned("§read/_"),
        owned("§write/_"),
        owned("§execute/_"),
        owned("§own/_"),
    ];
    assert(strings_view(files@) =~= admin_files(filename@));
    let mut paths: Vec<String> = Vec::new();
    let mut i: usize = 0;
    while i < files.len()
        invariant
            i <= files@.len(),
            strings_view(files@) == admin_files(filename@),
            strings_view(paths@) == admin_files(filename@).take(i as int).map_values(
                |f: Seq<char>| admin_base() + "/"@ + f,
            ),
        decreases files@.len() - i,
    {
        let ghost before = paths@;
        let p = crate::strings::concat3("hard/identities/001", "/", files[i].as_str());
        assert(files@[i as int]@ == admin_files(filename@)[i as int]);
        paths.push(p);
        proof {
            crate::strings::lemma_strings_view_push(before, p);
        }
        assert(admin_files(filename@).take(i + 1).map_values(|f: Seq<char>| admin_base() + "/"@ + f) =~= admin_files(
            filename@,
        ).take(i as int).map_values(|f: Seq<char>| admin_base() + "/"@ + f).push(admin_base() + "/"@ + files@[i as int]@));
        i += 1;
    }
    assert(admin_files(filename@).take(7) == admin_files(filename@));
    Ok(paths)
}

} // verus!
