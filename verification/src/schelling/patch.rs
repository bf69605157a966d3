use vstd::prelude::*;
use crate::text::{bool_text, decimal, decimal_string};

verus! {

/// The two populations of the segregation model.
#[derive(Copy, Clone, PartialEq, Eq, Structural, Hash, Debug)]
pub enum Group {
    One,
    Two,
}

impl Group {
    /// The name under which a group is shown.
    pub fn label(&self) -> (s: &'static str)
        ensures
            s@ == (match *self {
                Group::One => "One"@,
                Group::Two => "Two"@,
            }),
    {
        match *self {
            Group::One => "One",
            Group::Two => "Two",
        }
    }
}

/// One agent of the segregation model; agents are told apart by `id` alone.
#[derive(Copy, Clone, Debug)]
pub struct Patch {
    pub id: u32,
    pub group: Group,
    pub happy: bool,
}

impl Patch {
    /// The agent as text: its id, group and mood.
    pub fn text(&self) -> (s: String)
        ensures
            s@ == decimal(self.id as nat) + " group "@ + (match self.group {
                Group::One => "One"@,
                Group::Two => "Two"@,
            }) + " happy "@ + bool_text(self.happy),
    {
        let mood: &str = if self.happy { "true" } else { "false" };
        proof {
            reveal_strlit("true");
            reveal_strlit("false");
        }
        decimal_string(self.id).concat(" group ").concat(self.group.label()).concat(" happy ").concat(mood)
    }
}

impl PartialEq for Patch {
    fn eq(&self, other: &Patch) -> (r: bool) {
        self.id == other.id
    }
}

impl vstd::std_specs::cmp::PartialEqSpecImpl for Patch {
    open spec fn obeys_eq_spec() -> bool {
        true
    }

    open spec fn eq_spec(&self, other: &Patch) -> bool {
        self.id == other.id
    }
}

impl Eq for Patch {}

/// `Hash::hash` of `u32`: feeds the integer to the hasher; nothing is
/// stated of the hasher's state afterwards.
pub assume_specification<H: core::hash::Hasher>[ <u32 as core::hash::Hash>::hash::<H> ](
    data: &u32,
    state: &mut H,
);

/// Agents hash by id alone, as they compare.
impl core::hash::Hash for Patch {
    fn hash<H: core::hash::Hasher>(&self, state: &mut H) {
        self.id.hash(state);
    }
}

} // verus!
