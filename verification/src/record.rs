//! The record of one transaction: a package, a version, and what was done.

use crate::text::spaceless;
use vstd::prelude::*;

verus! {

/// What a transaction did to a package.
#[derive(Debug, Clone, Copy, PartialEq, Eq, Structural)]
pub enum PkgType {
    Upgraded,
    Installed,
}

/// One transaction read from the log. For an upgrade, `version` is the
/// version that was replaced: the one to go back to.
#[derive(Debug)]
pub struct Pkg {
    pub name: String,
    pub version: String,
    pub p_type: PkgType,
}

/// A record with its texts as sequences of characters.
pub struct PkgView {
    pub name: Seq<char>,
    pub version: Seq<char>,
    pub p_type: PkgType,
}

/// The views of a sequence of values, one for one.
pub open spec fn views<T: View>(s: Seq<T>) -> Seq<T::V> {
    s.map_values(|t: T| t@)
}

impl PkgView {
    /// The name is a word, and the version holds no white space.
    pub open spec fn wf(self) -> bool {
        &&& self.name.len() > 0
        &&& spaceless(self.name)
        &&& spaceless(self.version)
    }

    /// The package identifier: name, a hyphen, version.
    pub open spec fn identifier(self) -> Seq<char> {
        self.name + seq!['-'] + self.version
    }
}

impl View for Pkg {
    type V = PkgView;

    open spec fn view(&self) -> PkgView {
        PkgView { name: self.name@, version: self.version@, p_type: self.p_type }
    }
}

impl Pkg {
    /// The package identifier of this record, which names its archive in
    /// the cache and the package to remove.
    pub fn get_pkg(&self) -> (res: String)
        ensures
            res@ == self@.identifier(),
    {
        let mut out = String::new();
        out.append(self.name.as_str());
        out.append("-");
        out.append(self.version.as_str());
        proof {
            reveal_strlit("-");
            assert("-"@ =~= seq!['-']);
            assert(out@ =~= self@.identifier());
        }
        out
    }
}

} // verus!
