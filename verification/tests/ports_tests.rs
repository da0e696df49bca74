use github_cli::ports::needs_proc_tables;
use github_cli::ports::{collect_ports, extract_port, parse_tcp_table, PortEntry};

fn entry(port: u16, process: &str) -> PortEntry {
    PortEntry { port, process: process.to_string() }
}

#[test]
fn ss_line_with_users_section() {
    let line = "LISTEN 0      128        0.0.0.0:3001      0.0.0.0:*    users:((\"github-cli\",pid=1,fd=7))";
    assert_eq!(extract_port(line), Some(entry(3001, "github-cli")));
}

#[test]
fn ss_line_without_users_section_takes_last_field() {
    let line = "LISTEN 0 128 [::]:22 [::]:*";
    assert_eq!(extract_port(line), Some(entry(22, "[::]:*")));
}

#[test]
fn ss_line_with_unclosed_quote() {
    let line = "LISTEN 0 5 127.0.0.1:8080 *:* users:((\"python";
    assert_eq!(extract_port(line), Some(entry(8080, "unknown")));
    let line2 = "LISTEN 0 5 127.0.0.1:8081 *:* users:(none)";
    assert_eq!(extract_port(line2), Some(entry(8081, "unknown")));
}

#[test]
fn ss_line_without_port() {
    assert_eq!(extract_port("State Recv-Q Send-Q"), None);
    assert_eq!(extract_port("x:99999 y"), None);
    assert_eq!(extract_port(""), None);
}

#[test]
fn tcp_table_listening_ports() {
    let table = "  sl  local_address rem_address   st\n   0: 00000000:0BB9 00000000:0000 0A 00000000\n   1: 0100007F:1F90 00000000:0000 01 00000000\n   2: 00000000:0000 00000000:0000 0A 00000000\n";
    assert_eq!(parse_tcp_table(table), vec![3001u16]);
    assert_eq!(parse_tcp_table(""), Vec::<u16>::new());
}

#[test]
fn ports_from_ss_output() {
    let ss = "LISTEN 0 128 0.0.0.0:3001 0.0.0.0:* users:((\"node\",pid=3,fd=4))\nnoise line\nLISTEN 0 128 0.0.0.0:22 0.0.0.0:*\n";
    assert_eq!(collect_ports(ss, None, None), vec![entry(3001, "node"), entry(22, "0.0.0.0:*")]);
}

#[test]
fn ports_from_tables_without_duplicates_from_tcp6() {
    let tcp = "header\n 0: 00000000:0050 00000000:0000 0A\n 1: 00000000:0050 00000000:0000 0A\n";
    let tcp6 = "header\n 0: 00000000000000000000000000000000:0050 0000:0000 0A\n 1: 0000:1F90 0000:0000 0A\n 2: 0000:1F90 0000:0000 0A\n";
    let got = collect_ports("  \n", Some(tcp.to_string()), Some(tcp6.to_string()));
    assert_eq!(got, vec![entry(80, "unknown"), entry(80, "unknown"), entry(8080, "unknown")]);
    assert_eq!(collect_ports("", None, None), Vec::<PortEntry>::new());
}

#[test]
fn proc_tables_only_as_fallback() {
    assert!(needs_proc_tables(""));
    assert!(needs_proc_tables(" \n\t"));
    assert!(!needs_proc_tables("LISTEN 0 128 0.0.0.0:22 0.0.0.0:*\n"));
}
