use passiveradar::controls::Key;
use passiveradar::script::{key_from_name, parse_script, script_frame, ScriptCommand};

fn shape(cmds: &[ScriptCommand]) -> Vec<String> {
    cmds.iter()
        .map(|c| match c {
            ScriptCommand::Key(k) => format!("K:{}", k),
            ScriptCommand::Tick(n) => format!("T:{}", n),
            ScriptCommand::Dump(f) => format!("D:{}", f),
        })
        .collect()
}

#[test]
fn script_lines_are_read_in_order() {
    let text = "# demo\nKEY space\n\n  tick 3  \r\nDUMP  out.txt \nTICK x\nTICK +2\nPAUSE now\nKEY\nkey Up\n";
    assert_eq!(shape(&parse_script(text)), vec!["K:space", "T:3", "D:out.txt", "T:2", "K:Up"]);
}

#[test]
fn script_without_final_newline_and_overflowing_ticks() {
    let text = "TICK 99999999999999999999999\nKEY q";
    assert_eq!(shape(&parse_script(text)), vec!["K:q"]);
    assert!(parse_script("").is_empty());
}

#[test]
fn key_names() {
    assert_eq!(key_from_name("SPACE"), Key::Char(' '));
    assert_eq!(key_from_name("="), Key::Char('+'));
    assert_eq!(key_from_name("+"), Key::Char('+'));
    assert_eq!(key_from_name("Up"), Key::Up);
    assert_eq!(key_from_name("down"), Key::Down);
    assert_eq!(key_from_name("esc"), Key::Esc);
    assert_eq!(key_from_name("K"), Key::Char('k'));
    assert_eq!(key_from_name("é"), Key::Other);
    assert_eq!(key_from_name("home"), Key::Other);
}

#[test]
fn frames_run_commands_until_a_tick() {
    let cmds = parse_script("KEY l\nTICK 2\nKEY t\nTICK 0\nDUMP a\n");
    // Frame 1: `KEY l` and `TICK 2` are due; one of the two frames waited.
    assert_eq!(script_frame(&cmds, 0, 0), (2, 1, false));
    // Frame 2: still waiting.
    assert_eq!(script_frame(&cmds, 2, 1), (2, 0, false));
    // Frame 3: the rest runs; a zero tick does not wait.
    assert_eq!(script_frame(&cmds, 2, 0), (5, 0, true));
}
