//! The service commands: what to ask of the service manager of the operating
//! system, and what its answers mean.

use vstd::prelude::*;

use crate::text::{
    chars_of, copy_range, decimal, decimal_text, has_prefix, lossy_text, opt_text, parts,
    same_text, split, split_on, starts_with, string_of, texts, trim, trimmed, utf8_lossy,
};

verus! {

/// The program whose service is managed.
#[derive(Debug, Clone, Copy, PartialEq, Eq, Structural)]
pub enum Product {
    Senda,
    ClosedMesh,
}

impl Product {
    /// The name of the program.
    pub open spec fn name(self) -> Seq<char> {
        match self {
            Product::Senda => "Senda"@,
            Product::ClosedMesh => "ClosedMesh"@,
        }
    }

    /// The command of the program, which also names its unit and its logs.
    pub open spec fn command_name(self) -> Seq<char> {
        match self {
            Product::Senda => "senda"@,
            Product::ClosedMesh => "closedmesh"@,
        }
    }

    /// The label of the launch agent.
    pub open spec fn label(self) -> Seq<char> {
        match self {
            Product::Senda => "network.senda.runtime"@,
            Product::ClosedMesh => "dev.closedmesh.closedmesh"@,
        }
    }

    /// The site of the program.
    pub open spec fn site(self) -> Seq<char> {
        match self {
            Product::Senda => "https://senda.network"@,
            Product::ClosedMesh => "https://closedmesh.com"@,
        }
    }

    /// How often starting the launch agent is tried.
    pub open spec fn attempts(self) -> u32 {
        match self {
            Product::Senda => 3,
            Product::ClosedMesh => 1,
        }
    }

    /// The name of the program, which also names its scheduled task.
    pub fn display_name(self) -> (r: &'static str)
        ensures
            r@ == self.name(),
    {
        match self {
            Product::Senda => "Senda",
            Product::ClosedMesh => "ClosedMesh",
        }
    }

    /// The command of the program, which also names its unit and its logs.
    pub fn command(self) -> (r: &'static str)
        ensures
            r@ == self.command_name(),
    {
        match self {
            Product::Senda => "senda",
            Product::ClosedMesh => "closedmesh",
        }
    }

    /// The label of the launch agent.
    pub fn darwin_label(self) -> (r: &'static str)
        ensures
            r@ == self.label(),
    {
        match self {
            Product::Senda => "network.senda.runtime",
            Product::ClosedMesh => "dev.closedmesh.closedmesh",
        }
    }

    /// The site of the program.
    pub fn site_url(self) -> (r: &'static str)
        ensures
            r@ == self.site(),
    {
        match self {
            Product::Senda => "https://senda.network",
            Product::ClosedMesh => "https://closedmesh.com",
        }
    }

    /// The file of the launch agent.
    pub fn plist_name(self) -> (r: String)
        ensures
            r@ == self.label() + ".plist"@,
    {
        self.darwin_label().to_owned().concat(".plist")
    }

    /// The file of the unit.
    pub fn unit_name(self) -> (r: String)
        ensures
            r@ == self.command_name() + ".service"@,
    {
        self.command().to_owned().concat(".service")
    }

    /// The place of the launch agent's file below the home directory.
    pub fn plist_path(self) -> (r: String)
        ensures
            r@ == "Library/LaunchAgents/"@ + self.label() + ".plist"@,
    {
        let r = "Library/LaunchAgents/".to_owned().concat(self.plist_name().as_str());
        assert(r@ =~= "Library/LaunchAgents/"@ + self.label() + ".plist"@);
        r
    }

    /// The place of the unit's file below the home directory.
    pub fn unit_path(self) -> (r: String)
        ensures
            r@ == ".config/systemd/user/"@ + self.command_name() + ".service"@,
    {
        let r = ".config/systemd/user/".to_owned().concat(self.unit_name().as_str());
        assert(r@ =~= ".config/systemd/user/"@ + self.command_name() + ".service"@);
        r
    }

    /// The message on a system without a known service manager.
    pub fn unsupported_os(self) -> (r: String)
        ensures
            r@ == "`"@ + self.command_name()
                + " service` does not yet support this OS. Run the binary directly: `"@
                + self.command_name() + " serve --private-only`."@,
    {
        "`".to_owned().concat(self.command()).concat(
            " service` does not yet support this OS. Run the binary directly: `",
        ).concat(self.command()).concat(" serve --private-only`.")
    }

    /// The message on a missing agent or unit file.
    pub fn not_installed(self, path: &str) -> (r: String)
        ensures
            r@ == self.name() + " service is not installed at "@ + path@
                + ". Run: curl -fsSL "@ + self.site() + "/install | sh -s -- --service"@,
    {
        self.display_name().to_owned().concat(" service is not installed at ").concat(path).concat(
            ". Run: curl -fsSL ",
        ).concat(self.site_url()).concat("/install | sh -s -- --service")
    }

    /// The message on a missing scheduled task.
    pub fn not_registered(self) -> (r: String)
        ensures
            r@ == self.name() + " task '"@ + self.name() + "' not registered. Run: iwr -useb "@
                + self.site() + "/install.ps1 | iex; "@ + self.command_name()
                + "-install -Service"@,
    {
        self.display_name().to_owned().concat(" task '").concat(self.display_name()).concat(
            "' not registered. Run: iwr -useb ",
        ).concat(self.site_url()).concat("/install.ps1 | iex; ").concat(self.command()).concat(
            "-install -Service",
        )
    }
}

/// How a command of the service manager ended.
#[derive(Debug, Clone, Copy, PartialEq, Eq, Structural)]
pub struct ExitStatus {
    pub success: bool,
    /// None if the command was killed.
    pub code: Option<i32>,
}

/// The digits of an exit code, with its sign.
pub open spec fn signed_decimal(n: int) -> Seq<char> {
    if n < 0 {
        "-"@ + decimal((-n) as nat)
    } else {
        decimal(n as nat)
    }
}

/// An exit code as it is printed.
pub open spec fn code_text(code: Option<i32>) -> Seq<char> {
    match code {
        Some(n) => "Some("@ + signed_decimal(n as int) + ")"@,
        None => "None"@,
    }
}

/// An exit code as it is printed.
pub fn exit_code_text(code: Option<i32>) -> (r: String)
    ensures
        r@ == code_text(code),
{
    match code {
        Some(n) => {
            let digits = if n < 0 {
                "-".to_owned().concat(decimal_text((-(n as i128)) as u128).as_str())
            } else {
                decimal_text(n as u128)
            };
            "Some(".to_owned().concat(digits.as_str()).concat(")")
        },
        None => "None".to_owned(),
    }
}

/// The message on a command that failed: what it was, and how it ended.
pub fn failure_message(what: &str, code: Option<i32>) -> (r: String)
    ensures
        r@ == what@ + " "@ + code_text(code),
{
    what.to_owned().concat(" ").concat(exit_code_text(code).as_str())
}

/// What to do next while the launch agent is being started.
#[derive(Debug, Clone, Copy, PartialEq, Eq, Structural)]
pub enum BootstrapStep {
    /// Wait, then try.
    Attempt { wait_secs: u64 },
    /// It runs, since the attempt with this number.
    Started { attempt: u32 },
    /// It does not.
    Failed { code: Option<i32> },
}

/// The code with which an agent that is still being unloaded answers.
pub const STILL_LOADED: i32 = 5;

/// What follows after some attempts, the last of which ended as `last` says: only
/// an agent that is still being unloaded is worth another attempt, two seconds
/// later than the one before.
pub open spec fn after_attempts(product: Product, done: u32, last: Option<ExitStatus>) -> BootstrapStep {
    match last {
        None => BootstrapStep::Attempt { wait_secs: 0 },
        Some(exit) => if exit.success {
            BootstrapStep::Started { attempt: done }
        } else if exit.code == Some(STILL_LOADED) && done < product.attempts() {
            BootstrapStep::Attempt { wait_secs: (2 * done) as u64 }
        } else {
            BootstrapStep::Failed { code: exit.code }
        },
    }
}

/// Decides what to do next while the launch agent is being started.
pub fn bootstrap_step(product: Product, done: u32, last: Option<ExitStatus>) -> (r: BootstrapStep)
    ensures
        r == after_attempts(product, done, last),
{
    let attempts: u32 = match product {
        Product::Senda => 3,
        Product::ClosedMesh => 1,
    };
    match last {
        None => BootstrapStep::Attempt { wait_secs: 0 },
        Some(exit) => {
            if exit.success {
                return BootstrapStep::Started { attempt: done };
            }
            match exit.code {
                Some(code) => if code == STILL_LOADED && done < attempts {
                    BootstrapStep::Attempt { wait_secs: 2 * done as u64 }
                } else {
                    BootstrapStep::Failed { code: exit.code }
                },
                None => BootstrapStep::Failed { code: None },
            }
        },
    }
}

/// Starting ends: after the last attempt nothing is tried again, and the waits
/// before the attempts are none, two and four seconds.
pub proof fn law_starting_ends(product: Product, done: u32, last: ExitStatus)
    ensures
        done >= product.attempts() ==> !(after_attempts(product, done, Some(last)) is Attempt),
        after_attempts(product, done, Some(last)) matches BootstrapStep::Attempt { wait_secs }
            ==> done < 3 && wait_secs == 2 * done && last.code == Some(STILL_LOADED),
        after_attempts(product, done, Some(last)) is Started <==> last.success,
{
}

/// The message on a started launch agent; it counts the attempts from the second
/// on.
pub fn started_message(product: Product, attempt: u32) -> (r: String)
    ensures
        r@ == "\u{2713} "@ + product.name() + " service started (label: "@ + product.label() + (
        if attempt > 1 {
            ", attempt "@ + decimal(attempt as nat)
        } else {
            ""@
        }) + ")"@,
{
    let extra = if attempt > 1 {
        ", attempt ".to_owned().concat(decimal_text(attempt as u128).as_str())
    } else {
        "".to_owned()
    };
    "\u{2713} ".to_owned().concat(product.display_name()).concat(
        " service started (label: ",
    ).concat(product.darwin_label()).concat(extra.as_str()).concat(")")
}

/// The domain of a user, from what `id -u` printed.
pub open spec fn user_domain(printed: Seq<u8>) -> Seq<char> {
    "gui/"@ + trimmed(lossy_text(printed))
}

/// The domain of a user, from what `id -u` printed.
pub fn uid_target(printed: &[u8]) -> (r: String)
    ensures
        r@ == user_domain(printed@),
{
    let text = utf8_lossy(printed);
    let uid = string_of(trim(chars_of(text.as_str()).as_slice()).as_slice());
    "gui/".to_owned().concat(uid.as_str())
}

/// The agent in a domain.
pub fn agent_target(product: Product, domain: &str) -> (r: String)
    ensures
        r@ == domain@ + "/"@ + product.label(),
{
    domain.to_owned().concat("/").concat(product.darwin_label())
}

/// The rest of a line behind a heading, both without the space around them.
pub open spec fn under_heading(line: Seq<char>, heading: Seq<char>) -> Option<Seq<char>> {
    let t = trimmed(line);
    if has_prefix(t, heading) {
        Some(trimmed(t.skip(heading.len() as int)))
    } else {
        None
    }
}

/// The rest of the last line with a heading.
pub open spec fn last_under(lines: Seq<Seq<char>>, heading: Seq<char>) -> Option<Seq<char>>
    decreases lines.len(),
{
    if lines.len() == 0 {
        None
    } else {
        match under_heading(lines.last(), heading) {
            Some(rest) => Some(rest),
            None => last_under(lines.drop_last(), heading),
        }
    }
}

/// The rest of a line behind a heading.
fn read_heading(line: &[char], heading: &str) -> (r: Option<String>)
    ensures
        opt_text(r) == under_heading(line@, heading@),
{
    let t = trim(line);
    let text = string_of(t.as_slice());
    if starts_with(text.as_str(), heading) {
        let n = chars_of(heading).len();
        let rest = copy_range(t.as_slice(), n, t.len());
        assert(rest@ =~= t@.skip(n as int));
        Some(string_of(trim(rest.as_slice()).as_slice()))
    } else {
        None
    }
}

/// The rest of the last line with a heading.
fn find_last(lines: &Vec<Vec<char>>, heading: &str) -> (r: Option<String>)
    ensures
        opt_text(r) == last_under(parts(lines@), heading@),
{
    let mut found: Option<String> = None;
    let ghost all = parts(lines@);
    let mut i: usize = 0;
    while i < lines.len()
        invariant
            i <= lines.len(),
            all == parts(lines@),
            opt_text(found) == last_under(all.take(i as int), heading@),
        decreases lines.len() - i,
    {
        assert(all.take(i + 1).drop_last() =~= all.take(i as int));
        assert(all.take(i + 1).last() == lines@[i as int]@);
        let rest = read_heading(lines[i].as_slice(), heading);
        if rest.is_some() {
            found = rest;
        }
        i = i + 1;
    }
    assert(all.take(i as int) =~= all);
    found
}

/// The lines of a text.
fn lines_of(text: &str) -> (r: Vec<Vec<char>>)
    ensures
        parts(r@) == split_on(text@, '\n'),
{
    split(chars_of(text).as_slice(), '\n')
}

/// The line on the state of a launch agent: what the service manager printed of
/// its state and its process, or that it is stopped if it printed nothing.
pub open spec fn agent_state(product: Product, success: bool, printed: Seq<u8>) -> Seq<char> {
    let lines = split_on(lossy_text(printed), '\n');
    product.name() + " service: "@ + (if !success {
        "stopped"@
    } else {
        (match last_under(lines, "state ="@) {
            Some(state) => state,
            None => "running"@,
        }) + (match last_under(lines, "pid ="@) {
            Some(pid) => " (pid "@ + pid + ")"@,
            None => ""@,
        })
    })
}

/// The line on the state of a launch agent.
pub fn darwin_status(product: Product, success: bool, printed: &[u8]) -> (r: String)
    ensures
        r@ == agent_state(product, success, printed@),
{
    let head = product.display_name().to_owned().concat(" service: ");
    if !success {
        return head.concat("stopped");
    }
    let text = utf8_lossy(printed);
    let lines = lines_of(text.as_str());
    let state = match find_last(&lines, "state =") {
        Some(state) => state,
        None => "running".to_owned(),
    };
    let pid = match find_last(&lines, "pid =") {
        Some(pid) => " (pid ".to_owned().concat(pid.as_str()).concat(")"),
        None => "".to_owned(),
    };
    head.concat(state.concat(pid.as_str()).as_str())
}

/// The line on the state of a unit.
pub open spec fn unit_state(product: Product, printed: Seq<u8>) -> Seq<char> {
    let state = trimmed(lossy_text(printed));
    product.name() + " service: "@ + (if state.len() == 0 {
        "unknown"@
    } else {
        state
    })
}

/// The line on the state of a unit.
pub fn linux_status(product: Product, printed: &[u8]) -> (r: String)
    ensures
        r@ == unit_state(product, printed@),
{
    let head = product.display_name().to_owned().concat(" service: ");
    let text = utf8_lossy(printed);
    let state = trim(chars_of(text.as_str()).as_slice());
    if state.is_empty() {
        head.concat("unknown")
    } else {
        head.concat(string_of(state.as_slice()).as_str())
    }
}

/// The line on the process of a service: none without a process.
pub open spec fn unit_process(printed: Seq<u8>) -> Option<Seq<char>> {
    let pid = trimmed(lossy_text(printed));
    if pid.len() == 0 || pid == "0"@ {
        None
    } else {
        Some("  pid: "@ + pid)
    }
}

/// The line on the process of a service, from what the service manager printed.
pub fn pid_line(printed: &[u8]) -> (r: Option<String>)
    ensures
        opt_text(r) == unit_process(printed@),
{
    let text = utf8_lossy(printed);
    let chars = trim(chars_of(text.as_str()).as_slice());
    let pid = string_of(chars.as_slice());
    if chars.is_empty() || same_text(pid.as_str(), "0") {
        None
    } else {
        Some("  pid: ".to_owned().concat(pid.as_str()))
    }
}

/// The script that prints the id of the running program, other than the process that
/// asks.
pub fn windows_pid_script(product: Product, own_pid: u32) -> (r: String)
    ensures
        r@ == "Get-Process -Name "@ + product.command_name()
            + " -ErrorAction SilentlyContinue | Where-Object { $_.Id -ne "@ + decimal(
            own_pid as nat,
        ) + " } | Select-Object -First 1 -ExpandProperty Id"@,
{
    "Get-Process -Name ".to_owned().concat(product.command()).concat(
        " -ErrorAction SilentlyContinue | Where-Object { $_.Id -ne ",
    ).concat(decimal_text(own_pid as u128).as_str()).concat(
        " } | Select-Object -First 1 -ExpandProperty Id",
    )
}

/// The state of a scheduled task: as its last status line says; without one, as
/// the first line on the task's own state says.
pub open spec fn task_state_in(lines: Seq<Seq<char>>) -> Option<Seq<char>>
    decreases lines.len(),
{
    if lines.len() == 0 {
        None
    } else {
        let before = task_state_in(lines.drop_last());
        match under_heading(lines.last(), "Status:"@) {
            Some(state) => Some(state),
            None => if before is Some {
                before
            } else {
                under_heading(lines.last(), "Scheduled Task State:"@)
            },
        }
    }
}

/// The line on the state of a scheduled task.
pub open spec fn task_state(product: Product, success: bool, printed: Seq<u8>) -> Seq<char> {
    product.name() + " service: "@ + (if !success {
        "not registered"@
    } else {
        match task_state_in(split_on(lossy_text(printed), '\n')) {
            Some(state) => state,
            None => "registered"@,
        }
    })
}

/// The line on the state of a scheduled task.
pub fn windows_status(product: Product, success: bool, printed: &[u8]) -> (r: String)
    ensures
        r@ == task_state(product, success, printed@),
{
    let head = product.display_name().to_owned().concat(" service: ");
    if !success {
        return head.concat("not registered");
    }
    let text = utf8_lossy(printed);
    let lines = lines_of(text.as_str());
    let mut state: Option<String> = None;
    let ghost all = parts(lines@);
    let mut i: usize = 0;
    while i < lines.len()
        invariant
            i <= lines.len(),
            all == parts(lines@),
            opt_text(state) == task_state_in(all.take(i as int)),
        decreases lines.len() - i,
    {
        assert(all.take(i + 1).drop_last() =~= all.take(i as int));
        assert(all.take(i + 1).last() == lines@[i as int]@);
        let said = read_heading(lines[i].as_slice(), "Status:");
        if said.is_some() {
            state = said;
        } else if state.is_none() {
            state = read_heading(lines[i].as_slice(), "Scheduled Task State:");
        }
        i = i + 1;
    }
    assert(all.take(i as int) =~= all);
    match state {
        Some(state) => head.concat(state.as_str()),
        None => head.concat("registered"),
    }
}

/// A list of words.
fn word_list(words: &[&str]) -> (r: Vec<String>)
    ensures
        texts(r@) == words@.map_values(|w: &str| w@),
{
    let mut r: Vec<String> = Vec::new();
    let mut i: usize = 0;
    while i < words.len()
        invariant
            i <= words.len(),
            r.len() == i,
            forall|j: int| 0 <= j < i ==> (#[trigger] r@[j])@ == words@[j]@,
        decreases words.len() - i,
    {
        r.push(words[i].to_owned());
        i = i + 1;
    }
    assert(texts(r@) =~= words@.map_values(|w: &str| w@));
    r
}

/// The arguments that show the logs of a launch agent.
pub fn darwin_log_args(follow: bool, stdout: &str, stderr: &str) -> (r: Vec<String>)
    ensures
        texts(r@) == (if follow {
            seq!["-F"@, stdout@, stderr@]
        } else {
            seq!["-n"@, "200"@, stdout@, stderr@]
        }),
{
    let r = if follow {
        word_list(&["-F", stdout, stderr])
    } else {
        word_list(&["-n", "200", stdout, stderr])
    };
    assert(texts(r@) =~= (if follow {
        seq!["-F"@, stdout@, stderr@]
    } else {
        seq!["-n"@, "200"@, stdout@, stderr@]
    }));
    r
}

/// The arguments that show the logs of a unit.
pub fn linux_log_args(product: Product, follow: bool) -> (r: Vec<String>)
    ensures
        texts(r@) == (if follow {
            seq!["--user-unit"@, product.command_name(), "-f"@]
        } else {
            seq!["--user-unit"@, product.command_name(), "-n"@, "200"@, "--no-pager"@]
        }),
{
    let r = if follow {
        word_list(&["--user-unit", product.command(), "-f"])
    } else {
        word_list(&["--user-unit", product.command(), "-n", "200", "--no-pager"])
    };
    assert(texts(r@) =~= (if follow {
        seq!["--user-unit"@, product.command_name(), "-f"@]
    } else {
        seq!["--user-unit"@, product.command_name(), "-n"@, "200"@, "--no-pager"@]
    }));
    r
}

/// The script that shows the logs of a scheduled task.
pub fn windows_log_script(follow: bool, stdout: &str, stderr: &str) -> (r: String)
    ensures
        r@ == (if follow {
            "Get-Content -Wait -Path '"@
        } else {
            "Get-Content -Tail 200 -Path '"@
        }) + stdout@ + "','"@ + stderr@ + "'"@,
{
    let head = if follow {
        "Get-Content -Wait -Path '"
    } else {
        "Get-Content -Tail 200 -Path '"
    };
    head.to_owned().concat(stdout).concat("','").concat(stderr).concat("'")
}

/// The message on missing log files.
pub fn no_logs(directory: &str) -> (r: String)
    ensures
        r@ == "no log files at "@ + directory@ + ". Is the service installed?"@,
{
    "no log files at ".to_owned().concat(directory).concat(". Is the service installed?")
}

/// A text for use between single quotes: every single quote doubled.
pub open spec fn quoted(s: Seq<char>) -> Seq<char>
    decreases s.len(),
{
    if s.len() == 0 {
        s
    } else if s.last() == '\'' {
        quoted(s.drop_last()).push('\'').push('\'')
    } else {
        quoted(s.drop_last()).push(s.last())
    }
}

/// What a text between single quotes stands for; none if a single quote in it is
/// not doubled, which would end the text early.
pub open spec fn unquoted(s: Seq<char>) -> Option<Seq<char>>
    decreases s.len(),
{
    if s.len() == 0 {
        Some(s)
    } else if s.last() != '\'' {
        match unquoted(s.drop_last()) {
            Some(t) => Some(t.push(s.last())),
            None => None,
        }
    } else if s.len() >= 2 && s[s.len() - 2] == '\'' {
        match unquoted(s.take(s.len() - 2)) {
            Some(t) => Some(t.push('\'')),
            None => None,
        }
    } else {
        None
    }
}

/// Doubles every single quote.
pub fn quote(s: &str) -> (r: String)
    ensures
        r@ == quoted(s@),
{
    let chars = chars_of(s);
    let mut out: Vec<char> = Vec::new();
    let mut i: usize = 0;
    assert(out@ =~= quoted(s@.take(0)));
    while i < chars.len()
        invariant
            i <= chars.len(),
            chars@ == s@,
            out@ == quoted(s@.take(i as int)),
        decreases chars.len() - i,
    {
        assert(s@.take(i + 1).drop_last() =~= s@.take(i as int));
        let c = chars[i];
        out.push(c);
        if c == '\'' {
            out.push(c);
        }
        i = i + 1;
    }
    assert(s@.take(i as int) =~= s@);
    string_of(out.as_slice())
}

/// Quoting is undone by reading, and no quote in a quoted text ends it early.
pub proof fn law_quoting_is_undone(s: Seq<char>)
    ensures
        unquoted(quoted(s)) == Some(s),
    decreases s.len(),
{
    if s.len() > 0 {
        let head = s.drop_last();
        law_quoting_is_undone(head);
        let q = quoted(s);
        if s.last() == '\'' {
            assert(q.take(q.len() - 2) =~= quoted(head));
        } else {
            assert(q.drop_last() =~= quoted(head));
        }
        assert(head.push(s.last()) =~= s);
    }
}

/// The script that stops every other process of the program that was started
/// from the same file.
pub fn kill_script(path: &str, own_pid: u32) -> (r: String)
    ensures
        r@ == "Get-Process -Name senda -ErrorAction SilentlyContinue | Where-Object { $_.Path -and ($_.Path -ieq '"@
            + quoted(path@) + "') -and ($_.Id -ne "@ + decimal(own_pid as nat)
            + ") } | Stop-Process -Force -ErrorAction SilentlyContinue"@,
{
    "Get-Process -Name senda -ErrorAction SilentlyContinue | Where-Object { $_.Path -and ($_.Path -ieq '".to_owned().concat(
        quote(path).as_str(),
    ).concat("') -and ($_.Id -ne ").concat(decimal_text(own_pid as u128).as_str()).concat(
        ") } | Stop-Process -Force -ErrorAction SilentlyContinue",
    )
}

/// The arguments that stop every other process of a helper program.
pub fn kill_args(image: &str, own_pid: u32) -> (r: Vec<String>)
    ensures
        texts(r@) == seq![
            "/F"@,
            "/T"@,
            "/IM"@,
            image@,
            "/FI"@,
            "PID ne "@ + decimal(own_pid as nat),
        ],
{
    let filter = "PID ne ".to_owned().concat(decimal_text(own_pid as u128).as_str());
    let r = word_list(&["/F", "/T", "/IM", image, "/FI", filter.as_str()]);
    assert(texts(r@) =~= seq![
        "/F"@,
        "/T"@,
        "/IM"@,
        image@,
        "/FI"@,
        "PID ne "@ + decimal(own_pid as nat),
    ]);
    r
}

/// What stands behind a heading is found however far the line is indented; a line that
/// starts otherwise has no such heading.
pub proof fn law_heading_is_found(indent: Seq<char>, heading: Seq<char>, rest: Seq<char>)
    requires
        forall|i: int| 0 <= i < indent.len() ==> crate::text::is_space(#[trigger] indent[i]),
        heading.len() > 0,
        rest.len() > 0,
        !crate::text::is_space(heading[0]),
        !crate::text::is_space(rest[0]),
        !crate::text::is_space(rest.last()),
    ensures
        under_heading(indent + heading + rest, heading) == Some(rest),
        under_heading(indent + heading + (seq![' '] + rest), heading) == Some(rest),
        !has_prefix(rest, heading) ==> under_heading(rest, heading) is None,
{
    let none = Seq::<char>::empty();
    let spaced = seq![' '] + rest;
    let (a, b) = (heading + rest, heading + spaced);
    crate::text::law_trimmed_between(indent, a, none);
    crate::text::law_trimmed_between(indent, b, none);
    crate::text::law_trimmed_between(none, rest, none);
    crate::text::law_trimmed_between(seq![' '], rest, none);
    assert(indent + a + none =~= indent + heading + rest);
    assert(indent + b + none =~= indent + heading + spaced);
    assert(none + rest + none =~= rest);
    assert(seq![' '] + rest + none =~= spaced);
    let n = heading.len() as int;
    assert(a.take(n) =~= heading && a.skip(n) =~= rest);
    assert(b.take(n) =~= heading && b.skip(n) =~= spaced);
}

/// The last line with a heading counts, wherever it stands.
pub proof fn law_last_heading_counts(lines: Seq<Seq<char>>, heading: Seq<char>, i: int)
    requires
        -1 <= i < lines.len(),
        i >= 0 ==> under_heading(lines[i], heading) is Some,
        forall|j: int| i < j < lines.len() ==> under_heading(#[trigger] lines[j], heading) is None,
    ensures
        i >= 0 ==> last_under(lines, heading) == under_heading(lines[i], heading),
        i < 0 ==> last_under(lines, heading) is None,
    decreases lines.len(),
{
    if lines.len() > 0 && i < lines.len() - 1 {
        let head = lines.drop_last();
        assert(lines.last() == lines[lines.len() - 1]);
        assert forall|j: int| i < j < head.len() implies under_heading(
            #[trigger] head[j],
            heading,
        ) is None by {
            assert(head[j] == lines[j]);
        }
        law_last_heading_counts(head, heading, i);
    }
}

/// The state of a task is what its last status line says; without any it is what the
/// first line on the task's own state says.
pub proof fn law_task_state_lines(lines: Seq<Seq<char>>, i: int, k: int)
    requires
        -1 <= i < lines.len(),
        i >= 0 ==> under_heading(lines[i], "Status:"@) is Some,
        forall|j: int|
            i < j < lines.len() ==> under_heading(#[trigger] lines[j], "Status:"@) is None,
        0 <= k <= lines.len(),
        k < lines.len() ==> under_heading(lines[k], "Scheduled Task State:"@) is Some,
        forall|j: int|
            0 <= j < k ==> under_heading(#[trigger] lines[j], "Scheduled Task State:"@) is None,
    ensures
        i >= 0 ==> task_state_in(lines) == under_heading(lines[i], "Status:"@),
        i < 0 && k < lines.len() ==> task_state_in(lines) == under_heading(
            lines[k],
            "Scheduled Task State:"@,
        ),
        i < 0 && k == lines.len() ==> task_state_in(lines) is None,
    decreases lines.len(),
{
    if lines.len() > 0 && i < lines.len() - 1 {
        let head = lines.drop_last();
        assert(lines.last() == lines[lines.len() - 1]);
        assert forall|j: int| i < j < head.len() implies under_heading(
            #[trigger] head[j],
            "Status:"@,
        ) is None by {
            assert(head[j] == lines[j]);
        }
        assert forall|j: int| 0 <= j < k && j < head.len() implies under_heading(
            #[trigger] head[j],
            "Scheduled Task State:"@,
        ) is None by {
            assert(head[j] == lines[j]);
        }
        let l = if k < head.len() {
            assert(head[k] == lines[k]);
            k
        } else {
            head.len() as int
        };
        if i >= 0 {
            assert(head[i] == lines[i]);
        }
        law_task_state_lines(head, i, l);
    }
}

/// An agent that is still being unloaded is tried again, three times in all for one
/// program and once for the other. Every other failure ends it with its code.
pub proof fn law_only_unloading_is_retried(done: u32, code: Option<i32>)
    ensures
        ({
            let failed = ExitStatus { success: false, code };
            &&& code == Some(5i32) && done < 3 ==> after_attempts(
                Product::Senda,
                done,
                Some(failed),
            ) == (BootstrapStep::Attempt { wait_secs: (2 * done) as u64 })
            &&& code != Some(5i32) || done >= 3 ==> after_attempts(
                Product::Senda,
                done,
                Some(failed),
            ) == (BootstrapStep::Failed { code })
            &&& done >= 1 ==> after_attempts(Product::ClosedMesh, done, Some(failed)) == (
            BootstrapStep::Failed { code })
            &&& after_attempts(Product::Senda, done, None) == (BootstrapStep::Attempt {
                wait_secs: 0,
            })
        }),
{
}

/// A unit's state is shown as it was printed, without the white space around it, and a
/// process only if there is one.
pub proof fn law_unit_lines(product: Product, printed: Seq<u8>)
    ensures
        trimmed(lossy_text(printed)).len() > 0 ==> unit_state(product, printed) == product.name()
            + " service: "@ + trimmed(lossy_text(printed)),
        trimmed(lossy_text(printed)).len() == 0 ==> unit_state(product, printed) == product.name()
            + " service: "@ + "unknown"@ && unit_process(printed) is None,
        trimmed(lossy_text(printed)) == "0"@ ==> unit_process(printed) is None,
        trimmed(lossy_text(printed)).len() > 0 && trimmed(lossy_text(printed)) != "0"@
            ==> unit_process(printed) == Some("  pid: "@ + trimmed(lossy_text(printed))),
{
}

/// The line on an agent or a task gives the state that was printed for it, and an
/// agent's process with it; without a printed one it says what the answer alone means.
pub proof fn law_state_lines(product: Product, printed: Seq<u8>, state: Seq<char>, pid: Seq<char>)
    ensures
        ({
            let lines = split_on(lossy_text(printed), '\n');
            let head = product.name() + " service: "@;
            &&& agent_state(product, false, printed) == head + "stopped"@
            &&& task_state(product, false, printed) == head + "not registered"@
            &&& last_under(lines, "state ="@) == Some(state) && last_under(lines, "pid ="@) == Some(
                pid,
            ) ==> agent_state(product, true, printed) == head + (state + (" (pid "@ + pid + ")"@))
            &&& last_under(lines, "state ="@) is None && last_under(lines, "pid ="@) == Some(pid)
                ==> agent_state(product, true, printed) == head + ("running"@ + (" (pid "@ + pid
                + ")"@))
            &&& task_state_in(lines) == Some(state) ==> task_state(product, true, printed) == head
                + state
            &&& task_state_in(lines) is None ==> task_state(product, true, printed) == head
                + "registered"@
        }),
{
}

} // verus!
