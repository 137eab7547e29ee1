use vstd::prelude::*;
use crate::text::{decimal, push_decimal};
use crate::util::{join_path, joined};

verus! {

/// A message between the launcher and the namespace process that runs an
/// instance's gamescope.
pub enum RpcMessage {
    Closed,
    /// The program started; the indices say where its standard streams are
    /// among the file descriptors sent along, the first being its pidfd.
    Started { pid: u32, stdin: Option<usize>, stdout: Option<usize>, stderr: Option<usize> },
    LaunchFailed,
    /// Bind this host input device into the namespace.
    AddInputDev(String),
    /// Remove this input device from the namespace.
    RemInputDev(String),
}

/// The message the namespace process sends once the program runs: the pidfd
/// goes first, then each standard stream the program has, in order.
pub fn started_message(pid: u32, has_stdin: bool, has_stdout: bool, has_stderr: bool) -> (msg: RpcMessage)
    ensures
        msg matches RpcMessage::Started { pid: p, stdin, stdout, stderr } && p == pid
            && stdin == (if has_stdin { Some(1usize) } else { None::<usize> })
            && stdout == (if has_stdout { Some((1 + if has_stdin { 1usize } else { 0usize }) as usize) } else { None::<usize> })
            && stderr == (if has_stderr {
                Some((1 + (if has_stdin { 1usize } else { 0usize }) + (if has_stdout { 1usize } else { 0usize })) as usize)
            } else {
                None::<usize>
            }),
{
    let mut count: usize = 1;
    let stdin = if has_stdin {
        count = count + 1;
        Some(count - 1)
    } else {
        None
    };
    let stdout = if has_stdout {
        count = count + 1;
        Some(count - 1)
    } else {
        None
    };
    let stderr = if has_stderr {
        count = count + 1;
        Some(count - 1)
    } else {
        None
    };
    RpcMessage::Started { pid, stdin, stdout, stderr }
}

/// What the namespace process does with a message from the launcher.
pub enum ContainerAction {
    /// The launcher is gone: kill the program and exit.
    KillAndExit,
    Bind(String),
    Unbind(String),
    /// Anything else is refused with this error.
    Refuse(String),
}

pub fn container_action(msg: RpcMessage) -> (a: ContainerAction)
    ensures
        match msg {
            RpcMessage::Closed => a is KillAndExit,
            RpcMessage::AddInputDev(p) => a matches ContainerAction::Bind(q) && q == p,
            RpcMessage::RemInputDev(p) => a matches ContainerAction::Unbind(q) && q == p,
            _ => a matches ContainerAction::Refuse(e) && e@ == "Got sent some invalid command to container."@,
        },
{
    match msg {
        RpcMessage::Closed => ContainerAction::KillAndExit,
        RpcMessage::AddInputDev(p) => ContainerAction::Bind(p),
        RpcMessage::RemInputDev(p) => ContainerAction::Unbind(p),
        _ => ContainerAction::Refuse(String::from_str("Got sent some invalid command to container.")),
    }
}

/// Where the host's input devices are reachable inside the namespace.
pub const HOST_INPUT_MOUNT: &'static str = "/tmp/PARTYDECK_HOST_DEV_INPUT_MOUNT";

/// The host device node an input device is bound from, and the node inside
/// the namespace it is bound to.
pub fn device_mount_paths(device: &str) -> (res: (String, String))
    ensures
        res.0@ == joined(HOST_INPUT_MOUNT@, device@),
        res.1@ == joined("/dev/input"@, device@),
{
    (join_path(HOST_INPUT_MOUNT, device), join_path("/dev/input", device))
}

/// A line of a user namespace's id map that maps `id` to itself.
pub fn id_map_line(id: u32) -> (line: String)
    ensures
        line@ == decimal(id as nat) + " "@ + decimal(id as nat) + " 1\n"@,
{
    let mut line = String::new();
    push_decimal(&mut line, id as u64);
    line.append(" ");
    push_decimal(&mut line, id as u64);
    line.append(" 1\n");
    proof {
        assert(line@ =~= decimal(id as nat) + " "@ + decimal(id as nat) + " 1\n"@);
    }
    line
}

#[verifier::external_type_specification]
#[verifier::external_body]
pub struct ExIoError(std::io::Error);

/// `std::io::Error::last_os_error`: the error of the last failed system
/// call of this thread. What it holds depends on the thread's `errno`, so
/// nothing is stated of it.
#[verifier::external_body]
fn last_os_error() -> std::io::Error {
    std::io::Error::last_os_error()
}

/// The result of a raw system call: `-1` means it failed, with the error in
/// `errno`.
pub fn cvt_libc_err(t: i64) -> (res: Result<i64, std::io::Error>)
    ensures
        t == -1 <==> res is Err,
        t != -1 ==> res == Ok::<i64, std::io::Error>(t),
{
    if t == -1 {
        Err(last_os_error())
    } else {
        Ok(t)
    }
}

/// `si_code` values of `waitid` for a child that exited, was killed, dumped
/// core, was trapped, stopped or continued.
pub const CLD_EXITED: i32 = 1;
pub const CLD_KILLED: i32 = 2;
pub const CLD_DUMPED: i32 = 3;
pub const CLD_TRAPPED: i32 = 4;
pub const CLD_STOPPED: i32 = 5;
pub const CLD_CONTINUED: i32 = 6;

pub open spec fn valid_si_code(code: i32) -> bool {
    1 <= code <= 6
}

/// The `wait` status word for what `waitid` reported.
pub open spec fn wait_status(code: i32, status: i32) -> i32 {
    if code == CLD_EXITED {
        (status & 0xff) << 8
    } else if code == CLD_KILLED {
        status
    } else if code == CLD_DUMPED {
        status | 0x80
    } else if code == CLD_CONTINUED {
        0xffff
    } else {
        ((status & 0xff) << 8) | 0x7f
    }
}

/// Turns what `waitid` reported into a `wait` status word.
pub fn from_waitid_siginfo(code: i32, status: i32) -> (res: i32)
    requires
        valid_si_code(code),
    ensures
        res == wait_status(code, status),
{
    if code == CLD_EXITED {
        (status & 0xff) << 8
    } else if code == CLD_KILLED {
        status
    } else if code == CLD_DUMPED {
        status | 0x80
    } else if code == CLD_CONTINUED {
        0xffff
    } else {
        ((status & 0xff) << 8) | 0x7f
    }
}

/// An exit status comes back out of the word: it is a normal exit
/// (`WIFEXITED`) and `WEXITSTATUS` gives the status's low byte.
pub proof fn lemma_exited_status_decodes(status: i32)
    ensures
        wait_status(CLD_EXITED, status) & 0x7f == 0,
        (wait_status(CLD_EXITED, status) >> 8) & 0xff == status & 0xff,
{
    assert(((status & 0xff) << 8) & 0x7f == 0) by (bit_vector);
    assert(((((status & 0xff) << 8) >> 8) & 0xff) == status & 0xff) by (bit_vector);
}

/// A stopped or trapped child's word reads as stopped (`WIFSTOPPED`), and
/// `WSTOPSIG` gives the signal's low byte.
pub proof fn lemma_stopped_status_decodes(code: i32, status: i32)
    requires
        code == CLD_STOPPED || code == CLD_TRAPPED,
    ensures
        wait_status(code, status) & 0xff == 0x7f,
        (wait_status(code, status) >> 8) & 0xff == status & 0xff,
{
    assert(((((status & 0xff) << 8) | 0x7f) & 0xff) == 0x7f) by (bit_vector);
    assert((((((status & 0xff) << 8) | 0x7f) >> 8) & 0xff) == status & 0xff) by (bit_vector);
}

/// A core dump sets the core flag (`WCOREDUMP`) and keeps the signal.
pub proof fn lemma_dumped_status_decodes(status: i32)
    requires
        0 <= status < 0x80,
    ensures
        wait_status(CLD_DUMPED, status) & 0x80 != 0,
        wait_status(CLD_DUMPED, status) & 0x7f == status,
{
    assert(0 <= status < 0x80 ==> (status | 0x80) & 0x80 != 0) by (bit_vector);
    assert(0 <= status < 0x80 ==> (status | 0x80) & 0x7f == status) by (bit_vector);
}

/// The exit code of a process, remembered once it is known.
pub struct ExitTracker {
    pub last_exit_code: Option<i32>,
}

impl ExitTracker {
    pub fn new() -> (t: Self)
        ensures
            t.last_exit_code is None,
    {
        ExitTracker { last_exit_code: None }
    }

    /// What waiting found: a remembered code is returned as it is; else,
    /// when the pidfd is readable the process exited and its code is
    /// `recovered`, or 0 when the kernel could not give it back.
    pub fn after_poll(&mut self, readable: bool, recovered: Option<i32>) -> (res: Option<i32>)
        ensures
            old(self).last_exit_code is Some ==> res == old(self).last_exit_code && *final(self) == *old(self),
            old(self).last_exit_code is None && !readable ==> res is None && final(self).last_exit_code is None,
            old(self).last_exit_code is None && readable ==> res == Some(
                match recovered {
                    Some(c) => c,
                    None => 0i32,
                },
            ) && final(self).last_exit_code == res,
    {
        if self.last_exit_code.is_some() {
            return self.last_exit_code;
        }
        if !readable {
            return None;
        }
        let code = match recovered {
            Some(c) => c,
            None => 0,
        };
        self.last_exit_code = Some(code);
        self.last_exit_code
    }
}

} // verus!
