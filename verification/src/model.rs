//! The compiled policy data model: permissions, permission sets, manifests,
//! capabilities, platforms, and the errors the pipeline can fail with.

use vstd::prelude::*;

use crate::json::{json_view, JsonValue, SpecJson};
use crate::ordmap::OrdMap;

verus! {

/// Smallest grantable unit: optionally bundles allowed / denied command
/// names and a scope shape.
pub struct Permission {
    pub identifier: String,
    pub description: Option<String>,
    pub commands_allow: Vec<String>,
    pub commands_deny: Vec<String>,
    pub scope: Option<JsonValue>,
}

pub struct SpecPermission {
    pub identifier: Seq<char>,
    pub description: Option<Seq<char>>,
    pub commands_allow: Seq<Seq<char>>,
    pub commands_deny: Seq<Seq<char>>,
    pub scope: Option<SpecJson>,
}

impl View for Permission {
    type V = SpecPermission;

    open spec fn view(&self) -> SpecPermission {
        SpecPermission {
            identifier: self.identifier@,
            description: self.description.deep_view(),
            commands_allow: self.commands_allow.deep_view(),
            commands_deny: self.commands_deny.deep_view(),
            scope: match self.scope {
                Some(v) => Some(json_view(v)),
                None => None,
            },
        }
    }
}

/// Named, reusable group of permission identifiers of one namespace.
pub struct PermissionSet {
    pub identifier: String,
    pub description: String,
    pub permissions: Vec<String>,
}

pub struct SpecPermissionSet {
    pub identifier: Seq<char>,
    pub description: Seq<char>,
    pub permissions: Seq<Seq<char>>,
}

impl View for PermissionSet {
    type V = SpecPermissionSet;

    open spec fn view(&self) -> SpecPermissionSet {
        SpecPermissionSet {
            identifier: self.identifier@,
            description: self.description@,
            permissions: self.permissions.deep_view(),
        }
    }
}

/// The namespace's default grant: the permission identifiers that apply
/// when a consumer asks for `default`. Its identifier is the literal
/// `default`, so the record does not carry one.
pub struct DefaultPermission {
    pub description: Option<String>,
    pub permissions: Vec<String>,
}

pub struct SpecDefaultPermission {
    pub description: Option<Seq<char>>,
    pub permissions: Seq<Seq<char>>,
}

impl View for DefaultPermission {
    type V = SpecDefaultPermission;

    open spec fn view(&self) -> SpecDefaultPermission {
        SpecDefaultPermission {
            description: self.description.deep_view(),
            permissions: self.permissions.deep_view(),
        }
    }
}

/// The compiled, authoritative description of one namespace's permissions,
/// sets and default permission.
pub struct Manifest {
    pub permissions: OrdMap<Permission>,
    pub permission_sets: OrdMap<PermissionSet>,
    pub default_permission: Option<DefaultPermission>,
    pub global_scope_schema: Option<JsonValue>,
}

pub struct SpecManifest {
    pub permissions: Map<Seq<char>, SpecPermission>,
    pub permission_sets: Map<Seq<char>, SpecPermissionSet>,
    pub default_permission: Option<SpecDefaultPermission>,
    pub global_scope_schema: Option<SpecJson>,
}

impl View for Manifest {
    type V = SpecManifest;

    open spec fn view(&self) -> SpecManifest {
        SpecManifest {
            permissions: Map::new(
                |k: Seq<char>| self.permissions.spec_contains(k),
                |k: Seq<char>| self.permissions.spec_at(k)@,
            ),
            permission_sets: Map::new(
                |k: Seq<char>| self.permission_sets.spec_contains(k),
                |k: Seq<char>| self.permission_sets.spec_at(k)@,
            ),
            default_permission: match self.default_permission {
                Some(d) => Some(d@),
                None => None,
            },
            global_scope_schema: match self.global_scope_schema {
                Some(v) => Some(json_view(v)),
                None => None,
            },
        }
    }
}

impl Manifest {
    /// Identifier tables are sorted and keyed by the identifier each record
    /// carries.
    pub open spec fn wf(&self) -> bool {
        &&& self.permissions.wf()
        &&& self.permission_sets.wf()
        &&& forall|k: Seq<char>|
            #[trigger] self.permissions.spec_contains(k) ==> self.permissions.spec_at(
                k,
            ).identifier@ == k
        &&& forall|k: Seq<char>|
            #[trigger] self.permission_sets.spec_contains(k) ==> self.permission_sets.spec_at(
                k,
            ).identifier@ == k
    }
}

/// A platform a capability can be restricted to.
#[derive(Clone, Copy, PartialEq, Eq, Structural, Debug)]
pub enum Platform {
    Windows,
    MacOs,
    Linux,
    Android,
    Ios,
}

/// One permission reference inside a capability: a bare identifier, or the
/// extended form carrying namespace-specific allow / deny scope values.
pub struct PermissionEntry {
    pub identifier: String,
    pub allow: Option<Vec<JsonValue>>,
    pub deny: Option<Vec<JsonValue>>,
}

/// A named bundle of permission references, optionally restricted to a set
/// of platforms.
pub struct Capability {
    pub identifier: String,
    pub platforms: Option<Vec<Platform>>,
    pub permissions: Vec<PermissionEntry>,
}

/// The ways the compile-time policy gate can fail. Every variant carries
/// the structured context the surrounding build driver renders.
#[derive(Debug)]
pub enum AclError {
    /// A permission-definition or capability document is malformed.
    ParseError { message: String },
    /// Two permissions or two sets of one namespace share an identifier.
    DuplicateIdentifier { namespace: String, identifier: String },
    /// A permission set references a permission its namespace does not hold.
    UnresolvedReference { namespace: String, set_identifier: String, permission: String },
    /// A capability references a permission no manifest provides; carries
    /// every valid identifier, in canonical order, for the error message.
    InvalidCapabilityPermission { identifier: String, available: Vec<String> },
}

} // verus!
