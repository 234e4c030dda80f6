//! What installing, uninstalling and backgrounding the service write to the
//! system: the values are computed here, the caller stores or runs them.

use vstd::prelude::*;
use vstd::string::*;

verus! {

/// The value under which the service starts with the session.
pub ghost struct StartupModel {
    pub run_key: Seq<char>,
    pub approved_key: Seq<char>,
    pub value_name: Seq<char>,
    pub command: Seq<char>,
    pub approved: Seq<u8>,
}

/// The value under which the service starts with the session: the key that
/// holds the command, the key that holds the approval flags, the name of
/// the value in both, and what to store in each.
#[derive(Debug, PartialEq, Eq)]
pub struct StartupEntry {
    pub run_key: String,
    pub approved_key: String,
    pub value_name: String,
    pub command: String,
    pub approved: Vec<u8>,
}

impl View for StartupEntry {
    type V = StartupModel;

    open spec fn view(&self) -> StartupModel {
        StartupModel {
            run_key: self.run_key@,
            approved_key: self.approved_key@,
            value_name: self.value_name@,
            command: self.command@,
            approved: self.approved@,
        }
    }
}

/// The key of the commands that start with the session.
pub open spec fn run_key() -> Seq<char> {
    "Software\\Microsoft\\Windows\\CurrentVersion\\Run"@
}

/// The key of the approval flags of those commands.
pub open spec fn approved_key() -> Seq<char> {
    "software\\Microsoft\\Windows\\CurrentVersion\\Explorer\\StartupApproved\\Run"@
}

/// The name of the service's value under both keys.
pub open spec fn value_name() -> Seq<char> {
    "MemuryCard"@
}

/// The approval flags of a value that has none yet: twelve zero bytes.
pub open spec fn fresh_flags() -> Seq<u8> {
    Seq::new(12, |i: int| 0u8)
}

/// The approval flags with the state set: the two lowest bits of the first
/// byte become 2 for enabled and 3 for disabled; all else stays.
pub open spec fn flags_with(flags: Seq<u8>, enabled: bool) -> Seq<u8>
    recommends
        flags.len() > 0,
{
    flags.update(
        0,
        (flags[0] & 0xFC) | if enabled {
            2u8
        } else {
            3u8
        },
    )
}

/// What installing at `exe` stores, given the approval flags found.
pub open spec fn startup_of(enabled: bool, exe: Seq<char>, found: Option<Seq<u8>>) -> StartupModel {
    StartupModel {
        run_key: run_key(),
        approved_key: approved_key(),
        value_name: value_name(),
        command: exe + " -b"@,
        approved: flags_with(
            match found {
                Some(f) => f,
                None => fresh_flags(),
            },
            enabled,
        ),
    }
}

/// Computes what to store so that the program at `exe` starts in the
/// background with the session, enabled or not. `found` holds the approval
/// flags that are stored already, if any; they must not be empty.
pub fn install(enabled: bool, exe: &str, found: Option<Vec<u8>>) -> (r: StartupEntry)
    requires
        found matches Some(f) ==> f@.len() > 0,
    ensures
        r@ == startup_of(
            enabled,
            exe@,
            match found {
                Some(f) => Some(f@),
                None => None,
            },
        ),
{
    let mut command = String::from_str(exe);
    command.append(" -b");
    let mut approved = match found {
        Some(f) => f,
        None => {
            let mut zeros: Vec<u8> = Vec::new();
            while zeros.len() < 12
                invariant
                    zeros.len() <= 12,
                    forall|j: int| 0 <= j < zeros.len() ==> zeros[j] == 0u8,
                decreases 12 - zeros.len(),
            {
                zeros.push(0u8);
            }
            assert(zeros@ =~= fresh_flags());
            zeros
        },
    };
    let ghost before = approved@;
    let state: u8 = if enabled {
        2u8
    } else {
        3u8
    };
    let first: u8 = (approved[0] & 0xFC) | state;
    approved.set(0, first);
    assert(approved@ =~= flags_with(before, enabled));
    StartupEntry {
        run_key: String::from_str("Software\\Microsoft\\Windows\\CurrentVersion\\Run"),
        approved_key: String::from_str(
            "software\\Microsoft\\Windows\\CurrentVersion\\Explorer\\StartupApproved\\Run",
        ),
        value_name: String::from_str("MemuryCard"),
        command,
        approved,
    }
}

/// Names the values to delete so that the program no longer starts with
/// the session: the service's value under the run key, then under the
/// approval key.
pub fn uninstall() -> (r: Vec<(String, String)>)
    ensures
        r@.len() == 2,
        r@[0].0@ == run_key(),
        r@[0].1@ == value_name(),
        r@[1].0@ == approved_key(),
        r@[1].1@ == value_name(),
{
    let mut out: Vec<(String, String)> = Vec::new();
    out.push(
        (
            String::from_str("Software\\Microsoft\\Windows\\CurrentVersion\\Run"),
            String::from_str("MemuryCard"),
        ),
    );
    out.push(
        (
            String::from_str(
                "software\\Microsoft\\Windows\\CurrentVersion\\Explorer\\StartupApproved\\Run",
            ),
            String::from_str("MemuryCard"),
        ),
    );
    out
}

/// The command line that starts the program at `exe` in a hidden window.
pub open spec fn background_command(exe: Seq<char>) -> Seq<char> {
    "powershell -WindowStyle Hidden -Command \""@ + exe + "\"\n"@
}

/// Builds the command line that starts the program at `exe` in a hidden
/// window.
pub fn send_to_background(exe: &str) -> (r: String)
    ensures
        r@ == background_command(exe@),
{
    let mut cmd = String::from_str("powershell -WindowStyle Hidden -Command \"");
    cmd.append(exe);
    cmd.append("\"\n");
    cmd
}

/// Enabling the service takes no step of its own.
pub fn enable() {
}

/// Disabling the service takes no step of its own.
pub fn disable() {
}

} // verus!
