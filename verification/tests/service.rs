//! The service commands.

use senda::service::{
    agent_target, bootstrap_step, darwin_log_args, darwin_status, exit_code_text, failure_message,
    kill_args, kill_script, linux_log_args, linux_status, no_logs, pid_line, quote,
    started_message, uid_target, windows_log_script, windows_pid_script, windows_status,
    BootstrapStep, ExitStatus, Product,
};

fn failed(code: i32) -> Option<ExitStatus> {
    Some(ExitStatus {
        success: false,
        code: Some(code),
    })
}

#[test]
fn starting_is_tried_again_while_the_agent_is_unloaded() {
    let senda = Product::Senda;
    assert_eq!(bootstrap_step(senda, 0, None), BootstrapStep::Attempt { wait_secs: 0 });
    assert_eq!(bootstrap_step(senda, 1, failed(5)), BootstrapStep::Attempt { wait_secs: 2 });
    assert_eq!(bootstrap_step(senda, 2, failed(5)), BootstrapStep::Attempt { wait_secs: 4 });
    assert_eq!(
        bootstrap_step(senda, 3, failed(5)),
        BootstrapStep::Failed { code: Some(5) }
    );
    assert_eq!(
        bootstrap_step(senda, 1, failed(17)),
        BootstrapStep::Failed { code: Some(17) }
    );
    let killed = Some(ExitStatus {
        success: false,
        code: None,
    });
    assert_eq!(bootstrap_step(senda, 1, killed), BootstrapStep::Failed { code: None });
    let done = Some(ExitStatus {
        success: true,
        code: Some(0),
    });
    assert_eq!(bootstrap_step(senda, 2, done), BootstrapStep::Started { attempt: 2 });
    assert_eq!(
        bootstrap_step(Product::ClosedMesh, 1, failed(5)),
        BootstrapStep::Failed { code: Some(5) }
    );
}

#[test]
fn messages_name_the_product() {
    assert_eq!(
        started_message(Product::Senda, 1),
        "\u{2713} Senda service started (label: network.senda.runtime)"
    );
    assert_eq!(
        started_message(Product::Senda, 2),
        "\u{2713} Senda service started (label: network.senda.runtime, attempt 2)"
    );
    assert_eq!(
        Product::ClosedMesh.unsupported_os(),
        "`closedmesh service` does not yet support this OS. Run the binary directly: `closedmesh serve --private-only`."
    );
    assert_eq!(
        Product::Senda.not_installed("/p"),
        "Senda service is not installed at /p. Run: curl -fsSL https://senda.network/install | sh -s -- --service"
    );
    assert_eq!(
        Product::Senda.not_registered(),
        "Senda task 'Senda' not registered. Run: iwr -useb https://senda.network/install.ps1 | iex; senda-install -Service"
    );
    assert_eq!(Product::ClosedMesh.plist_name(), "dev.closedmesh.closedmesh.plist");
    assert_eq!(Product::Senda.unit_name(), "senda.service");
    assert_eq!(
        Product::Senda.plist_path(),
        "Library/LaunchAgents/network.senda.runtime.plist"
    );
    assert_eq!(Product::Senda.unit_path(), ".config/systemd/user/senda.service");
    assert_eq!(
        windows_pid_script(Product::Senda, 7),
        "Get-Process -Name senda -ErrorAction SilentlyContinue | Where-Object { $_.Id -ne 7 } \
         | Select-Object -First 1 -ExpandProperty Id"
    );
    assert_eq!(no_logs("/l"), "no log files at /l. Is the service installed?");
    assert_eq!(
        failure_message("launchctl bootstrap failed with exit code", Some(5)),
        "launchctl bootstrap failed with exit code Some(5)"
    );
}

#[test]
fn exit_codes_are_printed_as_options() {
    for code in [None, Some(0), Some(5), Some(-1), Some(i32::MIN), Some(i32::MAX)] {
        assert_eq!(exit_code_text(code), format!("{code:?}"));
    }
}

#[test]
fn targets_name_user_and_agent() {
    let domain = uid_target(b" 501\n");
    assert_eq!(domain, "gui/501");
    assert_eq!(
        agent_target(Product::Senda, &domain),
        "gui/501/network.senda.runtime"
    );
}

#[test]
fn the_state_of_an_agent_is_read() {
    let printed = b"x = {\n\tstate = running\n\tpid = 42\r\n}\n";
    assert_eq!(
        darwin_status(Product::Senda, true, printed),
        "Senda service: running (pid 42)"
    );
    assert_eq!(darwin_status(Product::Senda, true, b""), "Senda service: running");
    assert_eq!(darwin_status(Product::Senda, false, printed), "Senda service: stopped");
}

#[test]
fn the_state_of_a_unit_is_read() {
    assert_eq!(linux_status(Product::Senda, b"active\n"), "Senda service: active");
    assert_eq!(linux_status(Product::ClosedMesh, b"\n"), "ClosedMesh service: unknown");
    assert_eq!(pid_line(b"123\n").as_deref(), Some("  pid: 123"));
    assert_eq!(pid_line(b"0\n"), None);
    assert_eq!(pid_line(b""), None);
}

#[test]
fn the_state_of_a_task_is_read() {
    let both = b"Scheduled Task State:  Enabled\r\nStatus:  Running\r\n";
    assert_eq!(windows_status(Product::Senda, true, both), "Senda service: Running");
    let after = b"Status: Ready\r\nScheduled Task State: Enabled\r\n";
    assert_eq!(windows_status(Product::Senda, true, after), "Senda service: Ready");
    let one = b"Scheduled Task State: Enabled\r\nScheduled Task State: Disabled\r\n";
    assert_eq!(windows_status(Product::Senda, true, one), "Senda service: Enabled");
    assert_eq!(windows_status(Product::Senda, true, b"x"), "Senda service: registered");
    assert_eq!(
        windows_status(Product::Senda, false, both),
        "Senda service: not registered"
    );
}

#[test]
fn logs_are_shown_or_followed() {
    assert_eq!(darwin_log_args(true, "o", "e"), vec!["-F", "o", "e"]);
    assert_eq!(darwin_log_args(false, "o", "e"), vec!["-n", "200", "o", "e"]);
    assert_eq!(
        linux_log_args(Product::Senda, true),
        vec!["--user-unit", "senda", "-f"]
    );
    assert_eq!(
        linux_log_args(Product::Senda, false),
        vec!["--user-unit", "senda", "-n", "200", "--no-pager"]
    );
    assert_eq!(
        windows_log_script(true, "o", "e"),
        "Get-Content -Wait -Path 'o','e'"
    );
    assert_eq!(
        windows_log_script(false, "o", "e"),
        "Get-Content -Tail 200 -Path 'o','e'"
    );
}

#[test]
fn quotes_in_a_path_are_doubled() {
    assert_eq!(quote("it's"), "it''s");
    assert_eq!(quote("''"), "''''");
    assert_eq!(
        kill_script("C:\\a'b.exe", 7),
        "Get-Process -Name senda -ErrorAction SilentlyContinue \
         | Where-Object { $_.Path -and ($_.Path -ieq 'C:\\a''b.exe') -and ($_.Id -ne 7) } \
         | Stop-Process -Force -ErrorAction SilentlyContinue"
    );
    assert_eq!(
        kill_args("rpc-server.exe", 7),
        vec!["/F", "/T", "/IM", "rpc-server.exe", "/FI", "PID ne 7"]
    );
}
