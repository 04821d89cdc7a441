use wallrus::wallpaper::{
    check_outcome, run_gsettings, set_gnome_wallpaper, CommandOutcome, WallpaperError,
    WallpaperStep,
};

fn arguments(key: &str, uri: &str) -> Vec<String> {
    vec![
        "set".to_string(),
        "org.gnome.desktop.background".to_string(),
        key.to_string(),
        uri.to_string(),
    ]
}

fn failed(stderr: &str) -> CommandOutcome {
    CommandOutcome::Failed { stderr: stderr.to_string() }
}

#[test]
fn light_mode_is_set_first() {
    assert_eq!(
        set_gnome_wallpaper("/home/u/Pictures/w.png", &Vec::new()),
        WallpaperStep::Run { arguments: arguments("picture-uri", "file:///home/u/Pictures/w.png") }
    );
}

#[test]
fn dark_mode_follows_a_successful_light_mode() {
    assert_eq!(
        set_gnome_wallpaper("/w.png", &vec![CommandOutcome::Succeeded]),
        WallpaperStep::Run { arguments: arguments("picture-uri-dark", "file:///w.png") }
    );
}

#[test]
fn two_successes_finish_the_work() {
    let outcomes = vec![CommandOutcome::Succeeded, CommandOutcome::Succeeded];
    assert_eq!(set_gnome_wallpaper("/w.png", &outcomes), WallpaperStep::Finished);
    let more = vec![CommandOutcome::Succeeded, CommandOutcome::Succeeded, failed("late")];
    assert_eq!(set_gnome_wallpaper("/w.png", &more), WallpaperStep::Finished);
}

#[test]
fn the_first_failure_ends_the_work() {
    let light = WallpaperStep::Failed {
        error: WallpaperError::Rejected {
            key: "picture-uri".to_string(),
            stderr: "no schema".to_string(),
        },
    };
    assert_eq!(set_gnome_wallpaper("/w.png", &vec![failed("no schema")]), light);
    assert_eq!(
        set_gnome_wallpaper("/w.png", &vec![failed("no schema"), CommandOutcome::Succeeded]),
        light
    );
    assert_eq!(
        set_gnome_wallpaper("/w.png", &vec![CommandOutcome::Succeeded, failed("denied")]),
        WallpaperStep::Failed {
            error: WallpaperError::Rejected {
                key: "picture-uri-dark".to_string(),
                stderr: "denied".to_string(),
            },
        }
    );
}

#[test]
fn a_command_that_did_not_start_is_an_error_too() {
    let outcome = CommandOutcome::NotStarted { cause: "No such file or directory".to_string() };
    assert_eq!(
        set_gnome_wallpaper("/w.png", &vec![outcome]),
        WallpaperStep::Failed {
            error: WallpaperError::NotStarted { cause: "No such file or directory".to_string() },
        }
    );
}

#[test]
fn gsettings_arguments_set_a_key_of_the_background_schema() {
    assert_eq!(run_gsettings("picture-uri", "file:///a b.png"), arguments("picture-uri", "file:///a b.png"));
    assert_eq!(run_gsettings("", ""), arguments("", ""));
}

#[test]
fn outcomes_map_to_their_messages() {
    assert_eq!(check_outcome("picture-uri", &CommandOutcome::Succeeded), Ok(()));
    let rejected = check_outcome("picture-uri", &failed("boom")).unwrap_err();
    assert_eq!(rejected.message(), "gsettings failed for picture-uri: boom");
    let not_started =
        check_outcome("picture-uri", &CommandOutcome::NotStarted { cause: "missing".to_string() })
            .unwrap_err();
    assert_eq!(not_started.message(), "Failed to run gsettings: missing");
}
