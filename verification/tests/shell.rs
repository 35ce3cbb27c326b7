use zeus::kernel::shell::{Command, Echo, Shell};

#[test]
fn typing_a_line() {
    let _shell = Shell::new();
    let mut line = Vec::new();
    assert_eq!(Shell::feed(&mut line, 'h'), Echo::Char('h'));
    assert_eq!(Shell::feed(&mut line, 'x'), Echo::Char('x'));
    assert_eq!(Shell::feed(&mut line, '\x7f'), Echo::Erase);
    for c in "elp\r".chars() {
        Shell::feed(&mut line, c);
    }
    assert!(Shell::line_complete(&line));
    let cmd = Shell::finish(&line);
    assert_eq!(cmd, vec!['h', 'e', 'l', 'p']);
    assert_eq!(Shell::dispatch(&cmd), Command::Help);
}

#[test]
fn backspace_on_an_empty_line() {
    let mut line = Vec::new();
    assert_eq!(Shell::feed(&mut line, '\x7f'), Echo::Nothing);
    assert!(line.is_empty());
    assert!(!Shell::line_complete(&line));
}

#[test]
fn other_commands_spawn() {
    let cmd: Vec<char> = "ls\n".chars().collect();
    assert!(Shell::line_complete(&cmd));
    let cmd = Shell::finish(&cmd);
    assert_eq!(cmd, vec!['l', 's', '\n']);
    assert_eq!(Shell::dispatch(&cmd), Command::Spawn);
    assert_eq!(Shell::dispatch(&vec!['h', 'e', 'l', 'p', '\n']), Command::Spawn);
}
