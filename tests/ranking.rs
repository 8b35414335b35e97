use launcher::entry::DesktopApp;
use launcher::launch::{launch_command, plan};
use launcher::rank::{best_match, pick};

fn app(name: &str, command: &str) -> DesktopApp {
    DesktopApp { name: name.to_string(), command: command.to_string() }
}

fn sample() -> Vec<DesktopApp> {
    vec![app("Firefox", "firefox"), app("Files", "nautilus")]
}

#[test]
fn query_picks_matching_name() {
    assert_eq!(pick(&sample(), "fire"), Some(0));
    let c = plan(&sample(), "fire").unwrap();
    assert_eq!(c.program, "firefox");
    assert!(c.args.is_empty());
}

#[test]
fn query_case_is_ignored() {
    assert_eq!(pick(&sample(), "FIRE"), Some(0));
    assert_eq!(pick(&sample(), "fILeS"), Some(1));
}

#[test]
fn query_without_match_picks_nothing() {
    assert_eq!(pick(&sample(), "zzz"), None);
    assert!(plan(&sample(), "zzz").is_none());
}

#[test]
fn empty_query_matches_nothing() {
    assert_eq!(pick(&sample(), ""), None);
    assert_eq!(pick(&Vec::new(), "fire"), None);
}

#[test]
fn ranking_is_repeatable() {
    let apps = vec![app("Terminal", "xterm"), app("Terminal", "gnome-terminal"), app("Text Editor", "gedit")];
    let first = pick(&apps, "term");
    assert_eq!(first, Some(0));
    for _ in 0..5 {
        assert_eq!(pick(&apps, "term"), first);
    }
}

#[test]
fn best_match_prefers_highest_then_earliest() {
    assert_eq!(best_match(&vec![Some(3), Some(5), Some(5), None]), Some(1));
    assert_eq!(best_match(&vec![Some(0), Some(-2), None]), None);
    assert_eq!(best_match(&vec![None, Some(1)]), Some(1));
    assert_eq!(best_match(&Vec::new()), None);
}

#[test]
fn command_splits_at_single_spaces() {
    let c = launch_command("vlc --fullscreen movie.mkv");
    assert_eq!(c.program, "vlc");
    assert_eq!(c.args, vec!["--fullscreen".to_string(), "movie.mkv".to_string()]);
    let d = launch_command("a  b");
    assert_eq!(d.program, "a");
    assert_eq!(d.args, vec!["".to_string(), "b".to_string()]);
}
