use vstd::prelude::*;
use crate::text::{trim, trimmed};

verus! {

/// Why installing a systemd unit failed.
#[derive(Debug, PartialEq, Eq)]
pub enum ServiceError {
    PermissionError,
    SystemdNotFound,
    /// Writing the unit file failed; the text of the underlying error.
    FileWrite(String),
    /// Creating the unit directory failed; the text of the underlying error.
    DirectoryCreation(String),
    Unknown(String),
}

/// The text that each kind of failure is reported with.
pub open spec fn service_error_message(e: ServiceError) -> Seq<char> {
    match e {
        ServiceError::PermissionError => "permission denied - have you tried sudo?"@,
        ServiceError::SystemdNotFound => "systemd is required to write service files"@,
        ServiceError::FileWrite(_) => "failed to write file"@,
        ServiceError::DirectoryCreation(_) => "failed to create directory"@,
        ServiceError::Unknown(detail) => "unknown error: "@ + detail@,
    }
}

impl ServiceError {
    /// The text that this failure is reported with.
    pub fn message(&self) -> (text: String)
        ensures
            text@ == service_error_message(*self),
    {
        match self {
            ServiceError::PermissionError => "permission denied - have you tried sudo?".to_owned(),
            ServiceError::SystemdNotFound => "systemd is required to write service files".to_owned(),
            ServiceError::FileWrite(_) => "failed to write file".to_owned(),
            ServiceError::DirectoryCreation(_) => "failed to create directory".to_owned(),
            ServiceError::Unknown(detail) => {
                let mut text = "unknown error: ".to_owned();
                text.append(detail.as_str());
                text
            },
        }
    }
}

/// The check that systemd runs the machine, from what reading the name of
/// process 1 gave: its text, or the text of the error that reading it hit.
/// Systemd is there when that name, trimmed, is `systemd`.
pub fn validate(init_process: Result<String, String>) -> (verdict: Result<(), ServiceError>)
    ensures
        init_process matches Ok(name) ==> (verdict is Ok <==> trim(name@) == "systemd"@),
        init_process matches Ok(name) && trim(name@) != "systemd"@ ==> verdict matches Err(
            ServiceError::SystemdNotFound,
        ),
        init_process matches Err(detail) ==> (verdict matches Err(ServiceError::Unknown(d)) && d@
            == detail@),
{
    match init_process {
        Ok(name) => {
            let expected = "systemd".to_owned();
            let found = trimmed(name.as_str());
            if found == expected {
                Ok(())
            } else {
                Err(ServiceError::SystemdNotFound)
            }
        },
        Err(detail) => Err(ServiceError::Unknown(detail)),
    }
}

/// The failure reported when writing a unit file fails: a permission
/// problem is reported as such, anything else as a failed write.
pub fn file_write_error(permission_denied: bool, detail: String) -> (e: ServiceError)
    ensures
        permission_denied ==> e is PermissionError,
        !permission_denied ==> (e matches ServiceError::FileWrite(d) && d@ == detail@),
{
    if permission_denied {
        ServiceError::PermissionError
    } else {
        ServiceError::FileWrite(detail)
    }
}

/// The failure reported when creating the unit directory fails: a
/// permission problem is reported as such, anything else as a failed
/// directory creation.
pub fn directory_creation_error(permission_denied: bool, detail: String) -> (e: ServiceError)
    ensures
        permission_denied ==> e is PermissionError,
        !permission_denied ==> (e matches ServiceError::DirectoryCreation(d) && d@ == detail@),
{
    if permission_denied {
        ServiceError::PermissionError
    } else {
        ServiceError::DirectoryCreation(detail)
    }
}

/// The directory where the units are installed.
pub open spec fn unit_directory_spec() -> Seq<char> {
    "/etc/systemd/system"@
}

/// The directory where the units are installed (see `unit_directory_spec`).
pub fn unit_directory() -> (dir: String)
    ensures
        dir@ == unit_directory_spec(),
{
    "/etc/systemd/system".to_owned()
}

/// Where the unit `name` is installed: `name` itself when it is an absolute
/// path, else `name` inside the unit directory.
pub open spec fn unit_path_spec(name: Seq<char>) -> Seq<char> {
    if name.len() > 0 && name[0] == '/' {
        name
    } else {
        unit_directory_spec() + "/"@ + name
    }
}

/// Where the unit `name` is installed (see `unit_path_spec`).
pub fn unit_path(name: &str) -> (path: String)
    ensures
        path@ == unit_path_spec(name@),
{
    if name.unicode_len() > 0 && name.get_char(0) == '/' {
        name.to_owned()
    } else {
        let mut path = unit_directory();
        path.append("/");
        path.append(name);
        path
    }
}

/// Whether a service failure is one that stops the setup from offering to
/// enable the timer: systemd is missing, or a unit file could not be written.
pub open spec fn is_blocking_failure(e: ServiceError) -> bool {
    e is SystemdNotFound || e is FileWrite
}

/// Whether the outcome of installing one unit stops the setup from offering
/// to enable the timer: it failed, and one of the service failures behind the
/// error is blocking.
pub open spec fn blocks_enabling(outcome: Result<(), Vec<ServiceError>>) -> bool {
    match outcome {
        Ok(()) => false,
        Err(failures) => exists|k: int| 0 <= k < failures.len() && #[trigger] is_blocking_failure(failures@[k]),
    }
}

/// Whether to go on and offer to enable the timer, from the outcome of
/// installing each unit (an error carries the service failures found behind
/// it): unless every unit's installation failed for want of systemd or of a
/// written file.
pub fn should_enable_service(outcomes: &Vec<Result<(), Vec<ServiceError>>>) -> (enable: bool)
    ensures
        enable == !(forall|i: int| 0 <= i < outcomes.len() ==> #[trigger] blocks_enabling(outcomes@[i])),
{
    let mut i: usize = 0;
    while i < outcomes.len()
        invariant
            i <= outcomes.len(),
            forall|j: int| 0 <= j < i ==> #[trigger] blocks_enabling(outcomes@[j]),
        decreases outcomes.len() - i,
    {
        let mut blocked = false;
        match &outcomes[i] {
            Ok(()) => {},
            Err(failures) => {
                let mut k: usize = 0;
                while k < failures.len()
                    invariant
                        k <= failures.len(),
                        blocked <==> exists|m: int| 0 <= m < k && #[trigger] is_blocking_failure(failures@[m]),
                    decreases failures.len() - k,
                {
                    let hit = match &failures[k] {
                        ServiceError::SystemdNotFound => true,
                        ServiceError::FileWrite(_) => true,
                        _ => false,
                    };
                    if hit {
                        assert(is_blocking_failure(failures@[k as int]));
                        blocked = true;
                    }
                    k = k + 1;
                }
            },
        }
        if !blocked {
            assert(!blocks_enabling(outcomes@[i as int]));
            return true;
        }
        i = i + 1;
    }
    false
}

/// Law: only a missing systemd and a failed unit-file write block enabling
/// the timer. A permission problem, a failed directory creation or an
/// unknown failure does not, and neither does a successful installation; an
/// installation that failed with a missing systemd or a failed write among
/// its failures does.
pub proof fn law_only_systemd_or_write_failures_block(failures: Vec<ServiceError>)
    ensures
        is_blocking_failure(ServiceError::SystemdNotFound),
        forall|d: String| #[trigger] is_blocking_failure(ServiceError::FileWrite(d)),
        !is_blocking_failure(ServiceError::PermissionError),
        forall|d: String| !#[trigger] is_blocking_failure(ServiceError::DirectoryCreation(d)),
        forall|d: String| !#[trigger] is_blocking_failure(ServiceError::Unknown(d)),
        !blocks_enabling(Ok(())),
        (forall|k: int| 0 <= k < failures.len() ==> match #[trigger] failures@[k] {
            ServiceError::PermissionError => true,
            ServiceError::DirectoryCreation(_) => true,
            ServiceError::Unknown(_) => true,
            _ => false,
        }) ==> !blocks_enabling(Err(failures)),
        (exists|k: int| 0 <= k < failures.len() && match #[trigger] failures@[k] {
            ServiceError::SystemdNotFound => true,
            ServiceError::FileWrite(_) => true,
            _ => false,
        }) ==> blocks_enabling(Err(failures)),
{
    if exists|k: int| 0 <= k < failures.len() && match #[trigger] failures@[k] {
        ServiceError::SystemdNotFound => true,
        ServiceError::FileWrite(_) => true,
        _ => false,
    } {
        let k = choose|k: int| 0 <= k < failures.len() && match #[trigger] failures@[k] {
            ServiceError::SystemdNotFound => true,
            ServiceError::FileWrite(_) => true,
            _ => false,
        };
        assert(is_blocking_failure(failures@[k]));
        let outcome: Result<(), Vec<ServiceError>> = Err(failures);
        match outcome {
            Err(fs) => {
                assert(fs@[k] == failures@[k]);
                assert(is_blocking_failure(fs@[k]));
            },
            Ok(()) => {},
        }
        assert(blocks_enabling(outcome));
    }
}

/// Whether a command printed anything worth showing on its error stream:
/// something besides whitespace.
pub fn has_visible_output(text: &str) -> (visible: bool)
    ensures
        visible == (trim(text@).len() > 0),
{
    let t = trimmed(text);
    t.unicode_len() > 0
}

} // verus!
