//! The names of the views a presentation layer switches between, with a
//! verified round trip between a view and its stable name.

use vstd::prelude::*;

use crate::paths;

verus! {

/// A view the presentation layer can show; `Nothing` is the fallback when
/// a name matches no view.
#[derive(Clone, Copy, Debug, PartialEq, Eq, Structural)]
pub enum ViewName {
    Nothing,
    Library,
    Videos,
    Animated,
    Folders,
    Folder,
    Selfies,
}

/// The stable name of each view.
pub open spec fn spec_view_name(v: ViewName) -> Seq<char> {
    match v {
        ViewName::Nothing => "Nothing"@,
        ViewName::Library => "Library"@,
        ViewName::Videos => "Videos"@,
        ViewName::Animated => "Animated"@,
        ViewName::Folders => "Folders"@,
        ViewName::Folder => "Folder"@,
        ViewName::Selfies => "Selfies"@,
    }
}

/// The view a name denotes; an unknown name denotes `Nothing`, the
/// dispatcher's fallback.
pub open spec fn spec_view_from_name(s: Seq<char>) -> ViewName {
    if s == "Library"@ {
        ViewName::Library
    } else if s == "Videos"@ {
        ViewName::Videos
    } else if s == "Animated"@ {
        ViewName::Animated
    } else if s == "Folders"@ {
        ViewName::Folders
    } else if s == "Folder"@ {
        ViewName::Folder
    } else if s == "Selfies"@ {
        ViewName::Selfies
    } else {
        ViewName::Nothing
    }
}

impl ViewName {
    /// The stable name of the view.
    pub fn name(&self) -> (r: &'static str)
        ensures
            r@ == spec_view_name(*self),
    {
        match self {
            ViewName::Nothing => "Nothing",
            ViewName::Library => "Library",
            ViewName::Videos => "Videos",
            ViewName::Animated => "Animated",
            ViewName::Folders => "Folders",
            ViewName::Folder => "Folder",
            ViewName::Selfies => "Selfies",
        }
    }

    /// The view a name denotes, falling back to `Nothing` for a name no
    /// view carries.
    pub fn from_name(s: &str) -> (r: ViewName)
        ensures
            r == spec_view_from_name(s@),
    {
        if paths::str_eq(s, "Library") {
            ViewName::Library
        } else if paths::str_eq(s, "Videos") {
            ViewName::Videos
        } else if paths::str_eq(s, "Animated") {
            ViewName::Animated
        } else if paths::str_eq(s, "Folders") {
            ViewName::Folders
        } else if paths::str_eq(s, "Folder") {
            ViewName::Folder
        } else if paths::str_eq(s, "Selfies") {
            ViewName::Selfies
        } else {
            ViewName::Nothing
        }
    }
}

/// Law: a view's name leads back to the view, for every view.
pub proof fn lemma_view_name_round_trip(v: ViewName)
    ensures
        spec_view_from_name(spec_view_name(v)) == v,
{
    reveal_strlit("Nothing");
    reveal_strlit("Library");
    reveal_strlit("Videos");
    reveal_strlit("Animated");
    reveal_strlit("Folders");
    reveal_strlit("Folder");
    reveal_strlit("Selfies");
    assert("Nothing"@.len() == 7 && "Library"@.len() == 7 && "Videos"@.len() == 6 && "Animated"@.len()
        == 8 && "Folders"@.len() == 7 && "Folder"@.len() == 6 && "Selfies"@.len() == 7);
    assert("Nothing"@[0] == 'N' && "Library"@[0] == 'L' && "Videos"@[0] == 'V' && "Folders"@[0]
        == 'F' && "Folder"@[0] == 'F' && "Selfies"@[0] == 'S');
    match v {
        ViewName::Nothing => {
            assert("Nothing"@ != "Library"@ && "Nothing"@ != "Folders"@ && "Nothing"@
                != "Selfies"@);
        },
        ViewName::Library => {},
        ViewName::Videos => {},
        ViewName::Animated => {},
        ViewName::Folders => {
            assert("Folders"@ != "Library"@ && "Folders"@ != "Selfies"@);
        },
        ViewName::Folder => {
            assert("Folder"@ != "Videos"@);
        },
        ViewName::Selfies => {
            assert("Selfies"@ != "Library"@ && "Selfies"@ != "Folders"@);
        },
    }
}

} // verus!
