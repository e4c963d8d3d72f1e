use gnome_randr::cli::{Cli, ModeOption, OutputArgs, OutputArgsBuilder};
use gnome_randr::mode_db::Resolution;

#[test]
fn builder_builds_single_mode() {
    let mut b = OutputArgsBuilder::new("HDMI-3".to_string());
    assert!(b.set_resolution(Resolution { width: 1920, height: 1080 }));
    assert!(b.set_framerate(60));
    let out = b.build().unwrap();
    assert_eq!(out, OutputArgs {
        name: "HDMI-3".to_string(),
        auto: false,
        off: false,
        resolution: Some(Resolution { width: 1920, height: 1080 }),
        framerate: Some(60),
    });
}

#[test]
fn builder_refuses_repeats() {
    let mut b = OutputArgsBuilder::new("HDMI-1".to_string());
    assert!(b.set_auto());
    assert!(!b.set_auto());
    assert!(b.set_framerate(50));
    assert!(!b.set_framerate(60));
    assert_eq!(b.framerate, Some(50));
    let out = b.build().unwrap();
    assert!(out.auto);
    assert!(!out.off);
}

#[test]
fn builder_refuses_mode_conflicts() {
    let mut b = OutputArgsBuilder::new("HDMI-1".to_string());
    b.set_off();
    b.set_auto();
    b.set_resolution(Resolution { width: 800, height: 600 });
    assert_eq!(b.mode_group(), vec![ModeOption::Resolution, ModeOption::Auto, ModeOption::Off]);
    assert_eq!(b.build().unwrap_err(), vec![ModeOption::Resolution, ModeOption::Auto, ModeOption::Off]);
}

#[test]
fn cli_refuses_duplicate_outputs() {
    let mut cli = Cli::new();
    assert!(cli.add_output(OutputArgsBuilder::new("HDMI-1".to_string()).build().unwrap()));
    assert!(cli.has_output(&"HDMI-1".to_string()));
    assert!(!cli.has_output(&"HDMI-2".to_string()));
    assert!(!cli.add_output(OutputArgsBuilder::new("HDMI-1".to_string()).build().unwrap()));
    assert_eq!(cli.outputs.len(), 1);
}
