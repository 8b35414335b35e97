use launcher::catalog::build_catalog;
use launcher::entry::{normalize_command, parse_desktop_file, DesktopApp};

fn parse(text: &str) -> Option<DesktopApp> {
    parse_desktop_file(text.to_string())
}

#[test]
fn parses_name_and_command() {
    let app = parse("[Desktop Entry]\nType=Application\nName=Firefox\nExec=firefox %u\n").unwrap();
    assert_eq!(app.name, "Firefox");
    assert_eq!(app.command, "firefox");
}

#[test]
fn strips_url_placeholder() {
    assert_eq!(normalize_command("firefox %u"), "firefox");
}

#[test]
fn strips_placeholder_between_arguments() {
    assert_eq!(normalize_command("vlc %U --fullscreen"), "vlc --fullscreen");
    let app = parse("[Desktop Entry]\nName=VLC\nExec=vlc %U --fullscreen").unwrap();
    assert_eq!(app.command, "vlc --fullscreen");
}

#[test]
fn strips_every_placeholder_in_any_case() {
    assert_eq!(normalize_command("app %f %F %k %K %c %C %i %I %u"), "app");
    assert_eq!(normalize_command("app %d %x"), "app %d %x");
    assert_eq!(normalize_command("app%u"), "app%u");
}

#[test]
fn stripping_twice_is_stripping_once() {
    let once = normalize_command("gimp %U --new %f");
    assert_eq!(once, "gimp --new");
    assert_eq!(normalize_command(&once), once);
}

#[test]
fn cleaning_repeats_until_no_token_is_left() {
    let once = normalize_command(" % %uu");
    assert_eq!(once, "");
    assert_eq!(normalize_command(&once), once);
    assert_eq!(normalize_command("a %f %u"), "a");
    assert_eq!(normalize_command("run % %uu x"), "run x");
    assert!(parse("[Desktop Entry]\nName=Odd\nExec= % %uu\n").is_none());
}

#[test]
fn bare_carriage_return_at_end_stays() {
    let app = parse("[Desktop Entry]\nName=A\nExec=x\r\r").unwrap();
    assert_eq!(app.command, "x\r\r");
    let again = parse(&format!("[Desktop Entry]\nName=A\nExec={}", app.command)).unwrap();
    assert_eq!(again.command, app.command);
    let crlf = parse("[Desktop Entry]\nName=A\nExec=x\r\r\n").unwrap();
    assert_eq!(crlf.command, "x\r");
}

#[test]
fn carriage_returns_end_lines() {
    let text = "[Desktop Entry]\r\nName=Firefox\r\nExec=firefox %u\r\n\r\n[Desktop Action New]\r\nName=New\r\n";
    let app = parse(text).unwrap();
    assert_eq!(app.name, "Firefox");
    assert_eq!(app.command, "firefox");
    assert!(parse("[Desktop Entry]\r\nName=Tool\r\nExec=tool\r\nNoDisplay=true\r\n").is_none());
}

#[test]
fn hidden_entry_yields_nothing() {
    assert!(parse("[Desktop Entry]\nName=Tool\nExec=tool\nNoDisplay=true\n").is_none());
    assert!(parse("[Desktop Entry]\nNoDisplay=true\nName=Tool\nExec=tool").is_none());
}

#[test]
fn hidden_flag_elsewhere_is_ignored() {
    let text = "[Desktop Entry]\nName=Tool\nExec=tool\n\n[Desktop Action New]\nNoDisplay=true\n";
    assert_eq!(parse(text).unwrap().name, "Tool");
    assert!(parse("[Desktop Entry]\nName=Tool\nExec=tool\nNoDisplay=false").is_some());
}

#[test]
fn missing_name_or_exec_yields_nothing() {
    assert!(parse("[Desktop Entry]\nExec=tool\n").is_none());
    assert!(parse("[Desktop Entry]\nName=Tool\n").is_none());
    assert!(parse("[Desktop Entry]\nName=\nExec=tool\n").is_none());
    assert!(parse("[Desktop Entry]\nName=Tool\nExec= %u\n").is_none());
}

#[test]
fn no_entry_group_yields_nothing() {
    assert!(parse("").is_none());
    assert!(parse("[Desktop Action New]\nName=Tool\nExec=tool\n").is_none());
    assert!(parse("Name=Tool\nExec=tool\n").is_none());
}

#[test]
fn only_entry_block_is_read() {
    let text = "[Desktop Entry]\nName=Editor\n\nExec=editor\n";
    assert!(parse(text).is_none());
    let later = "[Desktop Action New]\nName=New Window\nExec=editor --new\n\n[Desktop Entry]\nName=Editor\nExec=editor\n";
    let app = parse(later).unwrap();
    assert_eq!(app.name, "Editor");
    assert_eq!(app.command, "editor");
}

#[test]
fn first_key_wins_and_value_keeps_equals() {
    let app = parse("[Desktop Entry]\nName=First\nName=Second\nExec=env A=1 run\n").unwrap();
    assert_eq!(app.name, "First");
    assert_eq!(app.command, "env A=1 run");
}

#[test]
fn keys_match_exactly() {
    let app = parse("[Desktop Entry]\nName[de]=Werkzeug\nGenericName=Thing\nName=Tool\nTryExec=x\nExec=tool\n").unwrap();
    assert_eq!(app.name, "Tool");
    assert_eq!(app.command, "tool");
}

#[test]
fn duplicate_records_are_all_kept() {
    let terminal = "[Desktop Entry]\nName=Terminal\nExec=xterm\n".to_string();
    let texts = vec![Some(terminal.clone()), None, Some("garbage".to_string()), Some(terminal)];
    let catalog = build_catalog(&texts);
    assert_eq!(catalog.len(), 2);
    assert_eq!(catalog[0].name, "Terminal");
    assert_eq!(catalog[1].name, "Terminal");
}

#[test]
fn catalog_keeps_file_order() {
    let texts = vec![
        Some("[Desktop Entry]\nName=B\nExec=b".to_string()),
        Some("[Desktop Entry]\nName=A\nExec=a\nNoDisplay=true".to_string()),
        Some("[Desktop Entry]\nName=C\nExec=c".to_string()),
    ];
    let names: Vec<String> = build_catalog(&texts).into_iter().map(|a| a.name).collect();
    assert_eq!(names, vec!["B".to_string(), "C".to_string()]);
    assert!(build_catalog(&Vec::new()).is_empty());
}
