use zellij_windows::command_line::{
    build_command_line, command_uses_powershell, is_powershell_stem, working_directory, RunCommand,
};
use zellij_windows::environment::build_environment_block;
use zellij_windows::pipes::{convert_path, is_socket, setup_ipc, ConnectStep};

fn command(command: &str, args: &[&str]) -> RunCommand {
    RunCommand {
        command: command.to_string(),
        args: args.iter().map(|arg| arg.to_string()).collect(),
        cwd: None,
    }
}

fn line(cmd: &RunCommand) -> String {
    let units = build_command_line(cmd);
    assert_eq!(units.last(), Some(&0));
    String::from_utf16(&units[..units.len() - 1]).expect("UTF-16")
}

#[test]
fn command_is_always_quoted() {
    assert_eq!(line(&command("cmd.exe", &[])), "\"cmd.exe\"");
    assert_eq!(
        line(&command("C:\\Program Files\\x.exe", &["/D", "/K"])),
        "\"C:\\Program Files\\x.exe\" /D /K"
    );
}

#[test]
fn arguments_are_quoted_where_they_have_to_be() {
    assert_eq!(line(&command("x", &["a b"])), "\"x\" \"a b\"");
    assert_eq!(line(&command("x", &["a\tb"])), "\"x\" \"a\tb\"");
    assert_eq!(line(&command("x", &[""])), "\"x\" \"\"");
    assert_eq!(line(&command("x", &["a\\b\\"])), "\"x\" a\\b\\");
}

#[test]
fn quotes_are_escaped_and_backslashes_before_them_doubled() {
    assert_eq!(line(&command("x", &["say \"hi\""])), "\"x\" \"say \\\"hi\\\"\"");
    assert_eq!(line(&command("x", &["a\\\"b"])), "\"x\" \"a\\\\\\\"b\"");
    assert_eq!(line(&command("x", &["a b\\"])), "\"x\" \"a b\\\\\"");
    assert_eq!(line(&command("x", &["a\\b c"])), "\"x\" \"a\\b c\"");
    assert_eq!(line(&command("x", &["\\\\ "])), "\"x\" \"\\\\ \"");
}

fn read_back(line: &str) -> Vec<String> {
    let mut chars = line.chars().peekable();
    let mut read = Vec::new();
    assert_eq!(chars.next(), Some('"'));
    read.push(chars.by_ref().take_while(|c| *c != '"').collect::<String>());
    loop {
        while matches!(chars.peek(), Some(' ' | '\t')) {
            chars.next();
        }
        if chars.peek().is_none() {
            return read;
        }
        let mut argument = String::new();
        let mut in_quotes = false;
        loop {
            let mut backslashes = 0;
            while chars.peek() == Some(&'\\') {
                chars.next();
                backslashes += 1;
            }
            match chars.peek() {
                Some('"') => {
                    argument.push_str(&"\\".repeat(backslashes / 2));
                    chars.next();
                    if backslashes % 2 == 1 {
                        argument.push('"');
                    } else {
                        in_quotes = !in_quotes;
                    }
                }
                Some(' ' | '\t') if !in_quotes => {
                    argument.push_str(&"\\".repeat(backslashes));
                    break;
                }
                Some(c) => {
                    argument.push_str(&"\\".repeat(backslashes));
                    argument.push(*c);
                    chars.next();
                }
                None => {
                    argument.push_str(&"\\".repeat(backslashes));
                    break;
                }
            }
        }
        read.push(argument);
    }
}

#[test]
fn command_line_reads_back() {
    let pieces = ["a", "\\", "\"", " ", "\t", ""];
    for first in pieces {
        for second in pieces {
            for third in pieces {
                for fourth in pieces {
                    let argument = format!("{first}{second}{third}{fourth}");
                    let cmd = command("C:\\x y\\", &[&argument, "end", &argument]);
                    assert_eq!(
                        read_back(&line(&cmd)),
                        vec!["C:\\x y\\", &argument, "end", &argument]
                    );
                }
            }
        }
    }
}

#[test]
fn powershells_are_recognised_by_their_names() {
    assert!(is_powershell_stem("pwsh"));
    assert!(is_powershell_stem("PowerShell"));
    assert!(!is_powershell_stem("powershell_ise"));
    assert!(!is_powershell_stem(""));
    assert!(command_uses_powershell(&command("pwsh", &[])));
    assert!(command_uses_powershell(&command("PWSH.exe", &[])));
    assert!(command_uses_powershell(&command("bin/PowerShell.exe", &[])));
    assert!(command_uses_powershell(&command("/usr//bin/pwsh", &[])));
    assert!(!command_uses_powershell(&command("pwsh/bash", &[])));
    assert!(!command_uses_powershell(&command("cmd.exe", &["pwsh"])));
    assert!(!command_uses_powershell(&command("pwsh.exe.old", &[])));
    assert!(!command_uses_powershell(&command("C:\\PowerShell\\cmd.exe", &[])));
    assert!(!command_uses_powershell(&command("pwsh\\..\\bin/cmd", &[])));
    assert!(command_uses_powershell(&command("C:\\bin/PwSh.exe", &[])));
    assert!(command_uses_powershell(&command("bin/pwsh/./", &[])));
    assert!(command_uses_powershell(&command("./pwsh", &[])));
    assert!(command_uses_powershell(&command("../bin/pwsh.", &[])));
    assert!(command_uses_powershell(&command("/v1.0/powershell.exe", &[])));
    assert!(command_uses_powershell(&command("bin/pwsh.exe//", &[])));
    assert!(!command_uses_powershell(&command(".pwsh", &[])));
    assert!(!command_uses_powershell(&command("pwsh/..", &[])));
    assert!(!command_uses_powershell(&command("..", &[])));
    assert!(!command_uses_powershell(&command("/", &[])));
    assert!(!command_uses_powershell(&command("", &[])));
}

#[test]
fn environment_block_tells_the_pane() {
    let variables = vec![
        ("PATH".to_string(), "C:\\bin".to_string()),
        ("ZELLIJ_PANE_ID".to_string(), "99".to_string()),
        ("EMPTY".to_string(), String::new()),
    ];
    let block = build_environment_block(&variables, 4_294_967_295);
    let text = String::from_utf16(&block).expect("UTF-16");
    assert_eq!(
        text,
        "PATH=C:\\bin\0EMPTY=\0ZELLIJ_PANE_ID=4294967295\0\0"
    );
    assert_eq!(
        String::from_utf16(&build_environment_block(&Vec::new(), 0)).expect("UTF-16"),
        "ZELLIJ_PANE_ID=0\0\0"
    );
}

#[test]
fn pipes_have_paths() {
    let main: Vec<u16> = "main".encode_utf16().collect();
    let own = convert_path(&main, None);
    assert_eq!(
        String::from_utf16(&own).expect("UTF-16"),
        "\\\\.\\pipe\\zellij\\main\0"
    );
    let seance: Vec<u16> = "s\u{e9}ance".encode_utf16().collect();
    let host: Vec<u16> = "host".encode_utf16().collect();
    let other = convert_path(&seance, Some(&host));
    assert_eq!(
        String::from_utf16(&other).expect("UTF-16"),
        "\\\\host\\pipe\\zellij\\s\u{e9}ance\0"
    );
    let no_text = convert_path(&[0xd800], None);
    assert_eq!(no_text[no_text.len() - 2..], [0xd800, 0]);
    assert_eq!(is_socket(0, 2), Err(2));
    assert_eq!(is_socket(1, 2), Ok(true));
}

#[test]
fn working_directory_has_to_be_one() {
    let mut cmd = command("x", &[]);
    assert_eq!(working_directory(&cmd, true), None);
    cmd.cwd = Some("C:".to_string());
    assert_eq!(working_directory(&cmd, true), Some(vec![0x43, 0x3a, 0]));
    assert_eq!(working_directory(&cmd, false), None);
}

#[test]
fn reply_pipe_is_tried_again_until_it_is_there() {
    assert_eq!(setup_ipc(false), ConnectStep::Retry { after_millis: 50 });
    assert_eq!(setup_ipc(true), ConnectStep::Connected);
}
