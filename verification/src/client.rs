//! What connecting to Firestore takes from the settings: the project and
//! database, the emulator URL and the service-account key file.
use vstd::prelude::*;
use crate::error::{INVALID_PARAMS, PluginError};
use crate::models::{Settings, non_empty};
use crate::schema_infer::opt_view;
use crate::text::{owned, push_str};

verus! {

/// How to open the database.
pub struct ConnectPlan {
    pub project_id: String,
    pub database_id: String,
    /// The API base URL when an emulator is configured.
    pub api_url: Option<String>,
    /// The service-account key file, when one is configured.
    pub key_file: Option<String>,
}

pub open spec fn starts_with(s: Seq<char>, p: Seq<char>) -> bool {
    s.len() >= p.len() && s.subrange(0, p.len() as int) == p
}

/// An emulator host as a URL: as given when it names its scheme, else
/// with `http://` in front.
pub open spec fn emulator_url(host: Seq<char>) -> Seq<char> {
    if starts_with(host, "http://"@) || starts_with(host, "https://"@) {
        host
    } else {
        "http://"@ + host
    }
}

fn has_prefix(s: &str, p: &str) -> (r: bool)
    ensures
        r == starts_with(s@, p@),
{
    let n = s.unicode_len();
    let m = p.unicode_len();
    if m > n {
        return false;
    }
    let mut i: usize = 0;
    while i < m
        invariant
            n == s@.len(),
            m == p@.len(),
            m <= n,
            0 <= i <= m,
            forall|k: int| 0 <= k < i ==> s@[k] == p@[k],
        decreases m - i,
    {
        if s.get_char(i) != p.get_char(i) {
            assert(s@.subrange(0, m as int)[i as int] != p@[i as int]);
            return false;
        }
        i += 1;
    }
    assert(s@.subrange(0, m as int) =~= p@);
    true
}

/// Whether `plan` opens the database the settings name.
pub open spec fn plan_for(plan: ConnectPlan, settings: &Settings) -> bool {
    &&& plan.project_id@ == settings.project_id@
    &&& plan.database_id@ == settings.database_id@
    &&& opt_view(plan.api_url) == match non_empty(opt_view(settings.emulator_host)) {
        Some(h) => Some(emulator_url(h)),
        None => None,
    }
    &&& opt_view(plan.key_file) == non_empty(opt_view(settings.service_account_path))
}

/// The connection to open for the settings; an empty project ID is an
/// invalid-params error.
pub fn connect_plan(settings: &Settings) -> (r: Result<ConnectPlan, PluginError>)
    ensures
        settings.project_id@.len() == 0 ==> (r matches Err(e) && e.code == INVALID_PARAMS
            && e.message@ == "project_id is empty — set it in plugin settings before connecting"@),
        settings.project_id@.len() > 0 ==> (r matches Ok(plan) && plan_for(plan, settings)),
{
    if settings.project_id.unicode_len() == 0 {
        return Err(
            PluginError::invalid_params(
                "project_id is empty — set it in plugin settings before connecting",
            ),
        );
    }
    let api_url = match &settings.emulator_host {
        Some(h) => if h.unicode_len() > 0 {
            if has_prefix(h.as_str(), "http://") || has_prefix(h.as_str(), "https://") {
                Some(h.clone())
            } else {
                let mut u = owned("http://");
                push_str(&mut u, h.as_str());
                Some(u)
            }
        } else {
            None
        },
        None => None,
    };
    let key_file = match &settings.service_account_path {
        Some(p) => if p.unicode_len() > 0 {
            Some(p.clone())
        } else {
            None
        },
        None => None,
    };
    Ok(
        ConnectPlan {
            project_id: settings.project_id.clone(),
            database_id: settings.database_id.clone(),
            api_url,
            key_file,
        },
    )
}

} // verus!
