//! The static table of known editor variants.
//!
//! Each definition names one editor variant: its display label, the
//! desktop identifier its installed application carries, the unique
//! suffix of its protocol object address, and the subdirectory of the
//! user's configuration root that holds its history document. No two
//! definitions share a desktop identifier, and no two share a computed
//! object address.

use vstd::prelude::*;
use vstd::string::StringExecFns;

verus! {

/// One known editor variant.
pub struct ProviderDefinition {
    /// A human readable label.
    pub label: String,
    /// The desktop identifier of the corresponding application.
    pub desktop_id: String,
    /// The unique suffix of the protocol object address.
    pub relative_obj_path: String,
    /// The configuration subdirectory that holds the history document.
    pub config_dirname: String,
}

/// The specification-level value of a definition.
#[verifier::ext_equal]
pub struct ProviderDefinitionView {
    /// The display label.
    pub label: Seq<char>,
    /// The desktop identifier.
    pub desktop_id: Seq<char>,
    /// The object address suffix.
    pub relative_obj_path: Seq<char>,
    /// The configuration subdirectory.
    pub config_dirname: Seq<char>,
}

impl View for ProviderDefinition {
    type V = ProviderDefinitionView;

    open spec fn view(&self) -> ProviderDefinitionView {
        ProviderDefinitionView {
            label: self.label@,
            desktop_id: self.desktop_id@,
            relative_obj_path: self.relative_obj_path@,
            config_dirname: self.config_dirname@,
        }
    }
}

impl DeepView for ProviderDefinition {
    type V = ProviderDefinitionView;

    open spec fn deep_view(&self) -> ProviderDefinitionView {
        self.view()
    }
}

/// The full protocol object address over a definition's suffix: a fixed
/// namespace prefix, then the suffix.
pub open spec fn spec_objpath(rel: Seq<char>) -> Seq<char> {
    "/de/swsnr/searchprovider/vscode/"@ + rel
}

/// The known definitions, at the specification level, in table order.
pub open spec fn spec_providers() -> Seq<ProviderDefinitionView> {
    seq![
        ProviderDefinitionView {
            label: "Code OSS (Arch Linux)"@,
            desktop_id: "code-oss.desktop"@,
            relative_obj_path: "arch/codeoss"@,
            config_dirname: "Code - OSS"@,
        },
        ProviderDefinitionView {
            label: "Visual Studio Code (AUR package)"@,
            desktop_id: "visual-studio-code.desktop"@,
            relative_obj_path: "aur/visualstudiocode"@,
            config_dirname: "Code"@,
        },
    ]
}

/// No two definitions share a desktop identifier, and no two share a
/// computed object address.
pub proof fn lemma_registry_invariants()
    ensures
        forall|i: int, j: int|
            0 <= i < j < spec_providers().len() ==> spec_providers()[i].desktop_id
                != spec_providers()[j].desktop_id,
        forall|i: int, j: int|
            0 <= i < j < spec_providers().len() ==> spec_objpath(
                spec_providers()[i].relative_obj_path,
            ) != spec_objpath(spec_providers()[j].relative_obj_path),
{
    reveal_strlit("code-oss.desktop");
    reveal_strlit("visual-studio-code.desktop");
    reveal_strlit("arch/codeoss");
    reveal_strlit("aur/visualstudiocode");
    assert("code-oss.desktop"@.len() != "visual-studio-code.desktop"@.len());
    assert(spec_objpath("arch/codeoss"@).len() != spec_objpath("aur/visualstudiocode"@).len());
}

impl ProviderDefinition {
    /// The full protocol object address of this definition, as
    /// [`spec_objpath`] says.
    pub fn objpath(&self) -> (r: String)
        ensures
            r@ == spec_objpath(self.relative_obj_path@),
    {
        let mut s = String::from_str("/de/swsnr/searchprovider/vscode/");
        s.append(self.relative_obj_path.as_str());
        s
    }
}

/// The known definitions, in table order, as [`spec_providers`] says.
pub fn providers() -> (r: Vec<ProviderDefinition>)
    ensures
        r.deep_view() == spec_providers(),
{
    let mut out: Vec<ProviderDefinition> = Vec::new();
    out.push(
        ProviderDefinition {
            label: String::from_str("Code OSS (Arch Linux)"),
            desktop_id: String::from_str("code-oss.desktop"),
            relative_obj_path: String::from_str("arch/codeoss"),
            config_dirname: String::from_str("Code - OSS"),
        },
    );
    out.push(
        ProviderDefinition {
            label: String::from_str("Visual Studio Code (AUR package)"),
            desktop_id: String::from_str("visual-studio-code.desktop"),
            relative_obj_path: String::from_str("aur/visualstudiocode"),
            config_dirname: String::from_str("Code"),
        },
    );
    proof {
        assert(out.deep_view() =~= spec_providers());
    }
    out
}

} // verus!
