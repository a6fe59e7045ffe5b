//! The transforms that rewrite a page, and the order in which they run.

use vstd::prelude::*;
use crate::html::attr::Uri;
use crate::text::same_text;

pub mod component;
pub mod css;
pub mod fetch;

pub use crate::error::{Error, ErrorView};

verus! {

/// One of the transforms.
#[derive(Clone, Copy, Debug, PartialEq, Eq, Structural)]
pub enum ModKind {
    /// Replaces marked elements by the resources they name.
    Fetch,
    /// Gathers and minifies stylesheets.
    Css,
    /// Composes components.
    Component,
}

/// The transform of a name.
pub open spec fn mod_named(name: Seq<char>) -> Option<ModKind> {
    if name == "fetch"@ {
        Some(ModKind::Fetch)
    } else if name == "css"@ {
        Some(ModKind::Css)
    } else if name == "component"@ {
        Some(ModKind::Component)
    } else {
        None
    }
}

/// The transforms loaded after the first `k` of `names` have been
/// loaded on top of `before`, in the order in which they came. A name of
/// no transform is passed over, and so is one whose transform is loaded
/// already: each transform is loaded once.
pub open spec fn mods_loaded(before: Seq<ModKind>, names: Seq<Seq<char>>, k: nat) -> Seq<ModKind>
    decreases k,
{
    if k == 0 || k > names.len() {
        before
    } else {
        let so_far = mods_loaded(before, names, (k - 1) as nat);
        match mod_named(names[k - 1]) {
            Some(m) => if so_far.contains(m) {
                so_far
            } else {
                so_far.push(m)
            },
            None => so_far,
        }
    }
}

/// The order in which a page is transformed: fetch, css, component.
pub open spec fn pipeline() -> Seq<ModKind> {
    seq![ModKind::Fetch, ModKind::Css, ModKind::Component]
}

/// The transforms loaded for one page, in the order in which they run.
pub struct HtmlModManager {
    /// The URI of the page that is being transformed.
    pub page_uri: Uri,
    /// The transforms, first to last.
    pub mods: Vec<ModKind>,
}

impl HtmlModManager {
    /// A manager without transforms.
    pub fn new(page_uri: Uri) -> (out: HtmlModManager)
        ensures
            out.page_uri@ == page_uri@,
            out.mods@.len() == 0,
    {
        HtmlModManager { page_uri, mods: Vec::new() }
    }

    /// The transform of a name.
    pub fn load_mod(mod_name: &str) -> (out: Option<ModKind>)
        ensures
            out == mod_named(mod_name@),
    {
        if same_text(mod_name, "fetch") {
            Some(ModKind::Fetch)
        } else if same_text(mod_name, "css") {
            Some(ModKind::Css)
        } else if same_text(mod_name, "component") {
            Some(ModKind::Component)
        } else {
            None
        }
    }

    /// Whether the transform is loaded.
    pub fn has_mod(&self, wanted: ModKind) -> (out: bool)
        ensures
            out == self.mods@.contains(wanted),
    {
        let mut i: usize = 0;
        while i < self.mods.len()
            invariant
                i <= self.mods.len(),
                forall|j: int| 0 <= j < i ==> self.mods@[j] != wanted,
            decreases self.mods.len() - i,
        {
            if self.mods[i] == wanted {
                assert(self.mods@[i as int] == wanted);
                return true;
            }
            i += 1;
        }
        false
    }

    /// Loads the transforms of the given names, in their order. A
    /// transform that is loaded already is not loaded again.
    pub fn load_mods(&mut self, mods: &Vec<String>)
        ensures
            final(self).page_uri == old(self).page_uri,
            final(self).mods@ == mods_loaded(
                old(self).mods@,
                mods@.map_values(|s: String| s@),
                mods@.len(),
            ),
    {
        let ghost names = mods@.map_values(|s: String| s@);
        let mut i: usize = 0;
        while i < mods.len()
            invariant
                i <= mods.len(),
                names == mods@.map_values(|s: String| s@),
                self.page_uri == old(self).page_uri,
                self.mods@ == mods_loaded(old(self).mods@, names, i as nat),
            decreases mods.len() - i,
        {
            match HtmlModManager::load_mod(mods[i].as_str()) {
                Some(m) => {
                    if !self.has_mod(m) {
                        self.mods.push(m);
                    }
                },
                None => {},
            }
            i += 1;
        }
    }

    /// The manager with the three transforms of the pipeline.
    pub fn standard(page_uri: Uri) -> (out: HtmlModManager)
        ensures
            out.page_uri@ == page_uri@,
            out.mods@ == pipeline(),
    {
        let mut mods: Vec<ModKind> = Vec::new();
        mods.push(ModKind::Fetch);
        mods.push(ModKind::Css);
        mods.push(ModKind::Component);
        assert(mods@ =~= pipeline());
        HtmlModManager { page_uri, mods }
    }

    /// The transform at position `at` of the order, if there is one.
    pub fn get_mod(&self, at: usize) -> (out: Option<ModKind>)
        ensures
            out == (if at < self.mods@.len() {
                Some(self.mods@[at as int])
            } else {
                None
            }),
    {
        if at < self.mods.len() {
            Some(self.mods[at])
        } else {
            None
        }
    }
}

} // verus!
