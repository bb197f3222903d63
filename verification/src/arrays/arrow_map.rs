//! A list of pairs of a key and a value as a map.

use vstd::prelude::*;

verus! {

/// What an array of lists turned out to be.
#[derive(Debug)]
pub enum ListParts {
    /// No list with offsets of 32 bits.
    NotAList,
    /// A list whose entries are pairs, as a map has them.
    StructEntries,
    /// A list of something else, by the name of its type.
    OtherEntries(String),
    /// A list of something else, the name of whose type is not told.
    UnnamedEntries,
}

/// Why a list makes no map.
#[derive(Debug)]
pub enum MapError {
    NotAList,
    /// The entries are of the type of this name, not pairs.
    NotAStruct(String),
    /// The entries are not pairs.
    NotPairs,
}

impl MapError {
    /// How the error is told.
    pub open spec fn text(self) -> Seq<char> {
        match self {
            MapError::NotAList =>
                "to_arrow_list returned a non-ListArray when building a MapArray"@,
            MapError::NotAStruct(name) => "Map entries must be a StructArray, got "@ + name@,
            MapError::NotPairs => "Map entries must be a StructArray"@,
        }
    }

    /// Returns how the error is told.
    pub fn to_string(&self) -> (r: String)
        ensures
            r@ == self.text(),
    {
        match self {
            MapError::NotAList =>
                "to_arrow_list returned a non-ListArray when building a MapArray".to_owned(),
            MapError::NotAStruct(name) => {
                let mut s: String = "Map entries must be a StructArray, got ".to_owned();
                s.append(name.as_str());
                s
            },
            MapError::NotPairs => "Map entries must be a StructArray".to_owned(),
        }
    }
}

/// Checks that a list can be a map: its entries have to be pairs.
pub fn check_map_parts(parts: ListParts) -> (r: Result<(), MapError>)
    ensures
        match parts {
            ListParts::NotAList => r == Err::<(), MapError>(MapError::NotAList),
            ListParts::StructEntries => r is Ok,
            ListParts::OtherEntries(name) => r == Err::<(), MapError>(MapError::NotAStruct(name)),
            ListParts::UnnamedEntries => r == Err::<(), MapError>(MapError::NotPairs),
        },
{
    match parts {
        ListParts::NotAList => Err(MapError::NotAList),
        ListParts::StructEntries => Ok(()),
        ListParts::OtherEntries(name) => Err(MapError::NotAStruct(name)),
        ListParts::UnnamedEntries => Err(MapError::NotPairs),
    }
}

/// A list makes a map exactly if its entries are pairs, and a type that stands in their place is
/// named where its name is known.
pub proof fn law_only_pairs_make_a_map(parts: ListParts, r: Result<(), MapError>)
    requires
        call_ensures(check_map_parts, (parts,), r),
    ensures
        r is Ok <==> parts is StructEntries,
        (r is Err && r->Err_0 is NotAStruct) <==> parts is OtherEntries,
        parts matches ListParts::OtherEntries(name) ==> r->Err_0->NotAStruct_0 == name,
        parts is NotAList ==> r->Err_0 is NotAList,
        parts is UnnamedEntries ==> r->Err_0 is NotPairs,
{
}

} // verus!
