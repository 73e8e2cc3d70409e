//! The packages that an audit covers.

use vstd::prelude::*;

use crate::collections::{collect_set, image, SortedSet};

verus! {

/// A target of a package.
#[derive(Debug, PartialEq, Eq)]
pub struct PackageTargetInfo {
    pub name: String,
    pub kinds: Vec<String>,
    pub crate_types: Vec<String>,
    pub source: String,
}

/// The model of [`PackageTargetInfo`].
#[verifier::ext_equal]
pub struct PackageTargetInfoView {
    pub name: Seq<char>,
    pub kinds: Seq<Seq<char>>,
    pub crate_types: Seq<Seq<char>>,
    pub source: Seq<char>,
}

impl DeepView for PackageTargetInfo {
    type V = PackageTargetInfoView;

    open spec fn deep_view(&self) -> PackageTargetInfoView {
        PackageTargetInfoView {
            name: self.name.deep_view(),
            kinds: self.kinds.deep_view(),
            crate_types: self.crate_types.deep_view(),
            source: self.source.deep_view(),
        }
    }
}

impl Clone for PackageTargetInfo {
    fn clone(&self) -> (copy: Self)
        ensures
            copy.deep_view() == self.deep_view(),
    {
        let copy = PackageTargetInfo {
            name: self.name.clone(),
            kinds: self.kinds.clone(),
            crate_types: self.crate_types.clone(),
            source: self.source.clone(),
        };
        proof {
            assert(copy.kinds.deep_view() =~= self.kinds.deep_view());
            assert(copy.crate_types.deep_view() =~= self.crate_types.deep_view());
        }
        copy
    }
}

/// A package of the workspace.
#[derive(Debug, PartialEq, Eq)]
pub struct AuditPackage {
    pub id: String,
    pub name: String,
    pub root: String,
    pub targets: Vec<PackageTargetInfo>,
    /// Whether the package lies among the requested paths.
    pub selected: bool,
}

/// The model of [`AuditPackage`].
#[verifier::ext_equal]
pub struct AuditPackageView {
    pub id: Seq<char>,
    pub name: Seq<char>,
    pub root: Seq<char>,
    pub targets: Seq<PackageTargetInfoView>,
    pub selected: bool,
}

impl DeepView for AuditPackage {
    type V = AuditPackageView;

    open spec fn deep_view(&self) -> AuditPackageView {
        AuditPackageView {
            id: self.id.deep_view(),
            name: self.name.deep_view(),
            root: self.root.deep_view(),
            targets: self.targets.deep_view(),
            selected: self.selected,
        }
    }
}

impl Clone for AuditPackage {
    fn clone(&self) -> (copy: Self)
        ensures
            copy.deep_view() == self.deep_view(),
    {
        let copy = AuditPackage {
            id: self.id.clone(),
            name: self.name.clone(),
            root: self.root.clone(),
            targets: self.targets.clone(),
            selected: self.selected,
        };
        proof {
            assert(copy.targets.deep_view() =~= self.targets.deep_view());
        }
        copy
    }
}

/// The workspace, its packages and the target that one audit compiles.
#[derive(Debug, PartialEq, Eq)]
pub struct AuditInventory {
    pub root: String,
    pub requested: Vec<String>,
    pub packages: Vec<AuditPackage>,
    pub audit_target: String,
}

/// The model of [`AuditInventory`].
#[verifier::ext_equal]
pub struct AuditInventoryView {
    pub root: Seq<char>,
    pub requested: Seq<Seq<char>>,
    pub packages: Seq<AuditPackageView>,
    pub audit_target: Seq<char>,
}

impl DeepView for AuditInventory {
    type V = AuditInventoryView;

    open spec fn deep_view(&self) -> AuditInventoryView {
        AuditInventoryView {
            root: self.root.deep_view(),
            requested: self.requested.deep_view(),
            packages: self.packages.deep_view(),
            audit_target: self.audit_target.deep_view(),
        }
    }
}

impl Clone for AuditInventory {
    fn clone(&self) -> (copy: Self)
        ensures
            copy.deep_view() == self.deep_view(),
    {
        let copy = AuditInventory {
            root: self.root.clone(),
            requested: self.requested.clone(),
            packages: self.packages.clone(),
            audit_target: self.audit_target.clone(),
        };
        proof {
            assert(copy.requested.deep_view() =~= self.requested.deep_view());
            assert(copy.packages.deep_view() =~= self.packages.deep_view());
        }
        copy
    }
}

/// Picks the identities of the selected packages.
pub open spec fn selected_id() -> spec_fn(AuditPackageView) -> Option<Seq<char>> {
    |package: AuditPackageView|
        if package.selected {
            Some(package.id)
        } else {
            None
        }
}

/// The identities of the selected packages.
pub open spec fn selected_ids(packages: Seq<AuditPackageView>) -> Set<Seq<char>> {
    image(packages, selected_id())
}

impl AuditInventory {
    /// The identities of the selected packages.
    pub fn selected_package_ids(&self) -> (ids: SortedSet<String>)
        ensures
            ids.wf(),
            ids.deep_view() == selected_ids(self.packages.deep_view()),
    {
        let ghost f = selected_id();
        let pick = |package: &AuditPackage| -> (id: Option<String>)
            ensures
                id.deep_view() == f(package.deep_view()),
        {
            if package.selected {
                Some(package.id.clone())
            } else {
                None
            }
        };
        collect_set(&self.packages, pick, Ghost(f))
    }
}

} // verus!
