//! Layered configuration resolution: an environment role selects an overlay
//! document that is merged over a base document, overlay-wins.
//!
//! Resolution is split in two steps around the file accesses, which the
//! caller performs. `plan_resolve` checks the role and fixes the two
//! document names, so a missing role fails before any file is touched;
//! `finish_resolve` takes the two load outcomes and either merges the
//! documents or reports which load failed.

use vstd::prelude::*;
use vstd::string::{StringExecFns, StrSliceExecFns};
use crate::config_doc::{ConfigDocument, ValModel, is_model_merge, merge_documents};

verus! {

/// Which of the two documents of a resolve is meant.
#[derive(Clone, Copy, Debug, PartialEq, Eq, Structural)]
pub enum DocSource {
    Base,
    Overlay,
}

/// Why a document could not be loaded.
#[derive(Clone, Copy, Debug, PartialEq, Eq, Structural)]
pub enum LoadFailure {
    FileMissing,
    FileUnreadable,
    Malformed,
}

/// A resolve failed: either no environment role was supplied, or one of the
/// two documents could not be loaded.
#[derive(Clone, Copy, Debug, PartialEq, Eq, Structural)]
pub enum ConfigError {
    MissingRoleError,
    ConfigLoadError { source: DocSource, cause: LoadFailure },
}

/// The two document names a resolve will load, fixed before any file access.
pub struct ResolvePlan {
    pub base_name: String,
    pub overlay_name: String,
}

/// Decides what a resolve must load. With no role, or an empty role, it
/// fails with `MissingRoleError` before any document is touched; otherwise
/// the overlay document's name is the base name, a dash, and the role.
pub fn plan_resolve(base_name: &str, role: Option<&str>) -> (r: Result<ResolvePlan, ConfigError>)
    ensures
        match r {
            Ok(plan) => role matches Some(ro) && ro@.len() > 0
                && plan.base_name@ == base_name@
                && plan.overlay_name@ == base_name@ + "-"@ + ro@,
            Err(e) => e == ConfigError::MissingRoleError
                && (role is None || (role matches Some(ro) && ro@.len() == 0)),
        },
{
    match role {
        None => Err(ConfigError::MissingRoleError),
        Some(ro) => {
            if ro.unicode_len() == 0 {
                Err(ConfigError::MissingRoleError)
            } else {
                let mut overlay_name = base_name.to_owned();
                overlay_name.append("-");
                overlay_name.append(ro);
                Ok(ResolvePlan { base_name: base_name.to_owned(), overlay_name })
            }
        },
    }
}

/// Completes a resolve from the two load outcomes. A failure of either
/// document is fatal and names its source, the base first; a missing
/// overlay is never ignored. On success the result is the overlay-wins
/// merge of the two documents.
pub fn finish_resolve(
    base: Result<ConfigDocument, LoadFailure>,
    overlay: Result<ConfigDocument, LoadFailure>,
) -> (r: Result<ConfigDocument, ConfigError>)
    ensures
        match (base, overlay) {
            (Err(c), _) => r matches Err(e)
                && e == (ConfigError::ConfigLoadError { source: DocSource::Base, cause: c }),
            (Ok(_), Err(c)) => r matches Err(e)
                && e == (ConfigError::ConfigLoadError { source: DocSource::Overlay, cause: c }),
            (Ok(b), Ok(o)) => r matches Ok(d)
                && is_model_merge(ValModel::Table(b@), ValModel::Table(o@), ValModel::Table(d@)),
        },
{
    match base {
        Err(c) => Err(ConfigError::ConfigLoadError { source: DocSource::Base, cause: c }),
        Ok(b) => match overlay {
            Err(c) => Err(ConfigError::ConfigLoadError { source: DocSource::Overlay, cause: c }),
            Ok(o) => Ok(merge_documents(&b, &o)),
        },
    }
}

} // verus!
