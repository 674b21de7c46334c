//! Identity and privilege-tier model.
use vstd::prelude::*;
use crate::strings::{clone_strings, decimal, digit_char, owned, strings_view, u64_to_string};

verus! {

/// Privilege tiers, derived from the first digit of the identity number.
#[derive(Debug, Clone, Copy, PartialEq, Eq, Structural, PartialOrd, Ord)]
pub enum PrivilegeTier {
    Omni,
    Shadow,
    Superroot,
    Root,
    Admin,
    Permissioned,
    User,
    Shared,
    Guest,
    DigitalConsciousness,
}

/// The tier named by a decimal digit (0..=9); any other value falls back to `Guest`.
pub open spec fn tier_of_digit(d: int) -> PrivilegeTier {
    if d == 0 { PrivilegeTier::Omni }
    else if d == 1 { PrivilegeTier::Shadow }
    else if d == 2 { PrivilegeTier::Superroot }
    else if d == 3 { PrivilegeTier::Root }
    else if d == 4 { PrivilegeTier::Admin }
    else if d == 5 { PrivilegeTier::Permissioned }
    else if d == 6 { PrivilegeTier::User }
    else if d == 7 { PrivilegeTier::Shared }
    else if d == 8 { PrivilegeTier::Guest }
    else if d == 9 { PrivilegeTier::DigitalConsciousness }
    else { PrivilegeTier::Guest }
}

/// The leading decimal digit of `n`.
pub open spec fn leading_digit(n: nat) -> nat
    decreases n,
{
    if n < 10 { n } else { leading_digit(n / 10) }
}

impl PrivilegeTier {
    /// The tier of an identity as its name is written on disk (leading zeros kept).
    pub open spec fn spec_from_name(name: Seq<char>) -> PrivilegeTier {
        if name.len() > 0 && '0' <= name[0] <= '9' {
            tier_of_digit(name[0] as int - '0' as int)
        } else {
            PrivilegeTier::Guest
        }
    }

    /// Derive the tier from the first character of the identity's name.
    pub fn from_name(name: &str) -> (t: PrivilegeTier)
        ensures t == Self::spec_from_name(name@),
    {
        let mut it = name.chars();
        match it.next() {
            Some('0') => PrivilegeTier::Omni,
            Some('1') => PrivilegeTier::Shadow,
            Some('2') => PrivilegeTier::Superroot,
            Some('3') => PrivilegeTier::Root,
            Some('4') => PrivilegeTier::Admin,
            Some('5') => PrivilegeTier::Permissioned,
            Some('6') => PrivilegeTier::User,
            Some('7') => PrivilegeTier::Shared,
            Some('8') => PrivilegeTier::Guest,
            Some('9') => PrivilegeTier::DigitalConsciousness,
            _ => PrivilegeTier::Guest,
        }
    }
    /// The tier of a numeric identity: the leading digit of `id`.
    pub open spec fn spec_from_id(id: u64) -> PrivilegeTier {
        tier_of_digit(leading_digit(id as nat) as int)
    }

    /// Derive the tier from a numeric identity ID by its leading decimal digit.
    pub fn from_id(id: u64) -> (t: PrivilegeTier)
        ensures t == Self::spec_from_id(id),
    {
        let mut n = id;
        while n >= 10
            invariant leading_digit(n as nat) == leading_digit(id as nat),
            decreases n,
        {
            n = n / 10;
        }
        match n {
            0 => PrivilegeTier::Omni,
            1 => PrivilegeTier::Shadow,
            2 => PrivilegeTier::Superroot,
            3 => PrivilegeTier::Root,
            4 => PrivilegeTier::Admin,
            5 => PrivilegeTier::Permissioned,
            6 => PrivilegeTier::User,
            7 => PrivilegeTier::Shared,
            8 => PrivilegeTier::Guest,
            _ => PrivilegeTier::DigitalConsciousness,
        }
    }
}

/// The decimal form of `n` starts with its leading digit.
proof fn lemma_decimal_starts_with_leading_digit(n: nat)
    ensures
        decimal(n).len() > 0,
        decimal(n)[0] == digit_char(leading_digit(n)),
        leading_digit(n) < 10,
    decreases n,
{
    if n >= 10 {
        lemma_decimal_starts_with_leading_digit(n / 10);
    }
}

/// The tier of a number is the tier of its decimal form read as a name:
/// both come from the leading digit.
pub proof fn lemma_tier_from_id_is_tier_of_decimal(n: u64)
    ensures
        PrivilegeTier::spec_from_id(n) == PrivilegeTier::spec_from_name(decimal(n as nat)),
{
    let d = leading_digit(n as nat);
    lemma_decimal_starts_with_leading_digit(n as nat);
    assert(digit_char(d) as int - '0' as int == d) by {
        if d == 0 {} else if d == 1 {} else if d == 2 {} else if d == 3 {} else if d == 4 {}
        else if d == 5 {} else if d == 6 {} else if d == 7 {} else if d == 8 {} else {}
    }
}

/// The first digit of an identity's name picks its tier, in privilege order:
/// 0 omni, 1 shadow, 2 superroot, 3 root, 4 admin, 5 permissioned, 6 user,
/// 7 shared, 8 guest, 9 digital consciousness; a name that does not start
/// with a digit is a guest.
pub proof fn lemma_first_digit_picks_the_tier(name: Seq<char>)
    ensures
        name.len() > 0 && name[0] == '0' ==> PrivilegeTier::spec_from_name(name) == PrivilegeTier::Omni,
        name.len() > 0 && name[0] == '1' ==> PrivilegeTier::spec_from_name(name) == PrivilegeTier::Shadow,
        name.len() > 0 && name[0] == '2' ==> PrivilegeTier::spec_from_name(name) == PrivilegeTier::Superroot,
        name.len() > 0 && name[0] == '3' ==> PrivilegeTier::spec_from_name(name) == PrivilegeTier::Root,
        name.len() > 0 && name[0] == '4' ==> PrivilegeTier::spec_from_name(name) == PrivilegeTier::Admin,
        name.len() > 0 && name[0] == '5' ==> PrivilegeTier::spec_from_name(name) == PrivilegeTier::Permissioned,
        name.len() > 0 && name[0] == '6' ==> PrivilegeTier::spec_from_name(name) == PrivilegeTier::User,
        name.len() > 0 && name[0] == '7' ==> PrivilegeTier::spec_from_name(name) == PrivilegeTier::Shared,
        name.len() > 0 && name[0] == '8' ==> PrivilegeTier::spec_from_name(name) == PrivilegeTier::Guest,
        name.len() > 0 && name[0] == '9' ==> PrivilegeTier::spec_from_name(name) == PrivilegeTier::DigitalConsciousness,
        !(name.len() > 0 && '0' <= name[0] <= '9') ==> PrivilegeTier::spec_from_name(name) == PrivilegeTier::Guest,
{
}

/// The name of a tier as `{:?}` writes it.
pub open spec fn tier_debug(t: PrivilegeTier) -> Seq<char> {
    match t {
        PrivilegeTier::Omni => "Omni"@,
        PrivilegeTier::Shadow => "Shadow"@,
        PrivilegeTier::Superroot => "Superroot"@,
        PrivilegeTier::Root => "Root"@,
        PrivilegeTier::Admin => "Admin"@,
        PrivilegeTier::Permissioned => "Permissioned"@,
        PrivilegeTier::User => "User"@,
        PrivilegeTier::Shared => "Shared"@,
        PrivilegeTier::Guest => "Guest"@,
        PrivilegeTier::DigitalConsciousness => "DigitalConsciousness"@,
    }
}

impl PrivilegeTier {
    /// The tier's name as `{:?}` writes it.
    pub fn debug_name(&self) -> (r: &'static str)
        ensures r@ == tier_debug(*self),
    {
        match self {
            PrivilegeTier::Omni => "Omni",
            PrivilegeTier::Shadow => "Shadow",
            PrivilegeTier::Superroot => "Superroot",
            PrivilegeTier::Root => "Root",
            PrivilegeTier::Admin => "Admin",
            PrivilegeTier::Permissioned => "Permissioned",
            PrivilegeTier::User => "User",
            PrivilegeTier::Shared => "Shared",
            PrivilegeTier::Guest => "Guest",
            PrivilegeTier::DigitalConsciousness => "DigitalConsciousness",
        }
    }
}

/// An identity: its number, its name as written on disk, its tier and its groups.
#[derive(Debug)]
pub struct Identity {
    pub id: u64,
    pub name: String,
    pub tier: PrivilegeTier,
    pub groups: Vec<String>,
}

/// The mathematical value of an identity.
pub struct IdentityView {
    pub id: u64,
    pub name: Seq<char>,
    pub tier: PrivilegeTier,
    pub groups: Seq<Seq<char>>,
}

impl Clone for Identity {
    fn clone(&self) -> (r: Self)
        ensures
            r@ == self@,
    {
        Identity { id: self.id, name: self.name.clone(), tier: self.tier, groups: clone_strings(&self.groups) }
    }
}

impl View for Identity {
    type V = IdentityView;

    open spec fn view(&self) -> IdentityView {
        IdentityView { id: self.id, name: self.name@, tier: self.tier, groups: strings_view(self.groups@) }
    }
}

impl Identity {
    /// An identity named as on disk; the tier comes from the name's first character.
    pub fn from_name(name: &str, id: u64) -> (r: Identity)
        ensures
            r.id == id,
            r.name@ == name@,
            r.tier == PrivilegeTier::spec_from_name(name@),
            r.groups@.len() == 0,
    {
        Identity { id, name: owned(name), tier: PrivilegeTier::from_name(name), groups: Vec::new() }
    }

    /// An identity known only by its number; the name is the number in decimal.
    pub fn new(id: u64) -> (r: Identity)
        ensures
            r.id == id,
            r.name@ == decimal(id as nat),
            r.tier == PrivilegeTier::spec_from_id(id),
            r.groups@.len() == 0,
    {
        Identity { id, name: u64_to_string(id), tier: PrivilegeTier::from_id(id), groups: Vec::new() }
    }
}

} // verus!
