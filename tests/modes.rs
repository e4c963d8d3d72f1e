use gnome_randr::display_config::{Mode, Output as BusOutput, OutputProperties, Transform, TransformOutOfRange};
use gnome_randr::mode_db::{group_modes_by_res, ModeDb, Resolution, RoundedMode};
use gnome_randr::output::Output;
use gnome_randr::resolution::ResolutionError;

fn mode(id: u32, width: u32, height: u32, frequency_mhz: u32) -> Mode {
    Mode { id, winsys_id: id as i64, width, height, frequency_mhz, flags: 0 }
}

fn rm(width: u32, height: u32, frequency: u32) -> RoundedMode {
    RoundedMode { res: Resolution { width, height }, frequency }
}

fn sample() -> Vec<Mode> {
    vec![
        mode(1, 1920, 1080, 60_000),
        mode(2, 1920, 1080, 59_940),
        mode(3, 1280, 720, 60_000),
        mode(4, 1920, 1080, 50_000),
        mode(5, 2560, 1440, 143_856),
        mode(6, 1280, 720, 49_500),
    ]
}

#[test]
fn modes_are_rounded_distinct_and_sorted() {
    let db = ModeDb::new(&sample());
    assert_eq!(db.get_modes(), vec![
        rm(2560, 1440, 144),
        rm(1920, 1080, 60),
        rm(1920, 1080, 50),
        rm(1280, 720, 60),
        rm(1280, 720, 50),
    ]);
    assert_eq!(db.get_resolutions(), vec![
        Resolution { width: 2560, height: 1440 },
        Resolution { width: 1920, height: 1080 },
        Resolution { width: 1280, height: 720 },
    ]);
}

#[test]
fn frequencies_per_resolution() {
    let db = ModeDb::new(&sample());
    assert_eq!(db.get_res_frequencies(&Resolution { width: 1920, height: 1080 }), Some(vec![60, 50]));
    assert_eq!(db.get_res_frequencies(&Resolution { width: 800, height: 600 }), None);
    let all = db.get_resolutions_with_frequencies();
    assert_eq!(all.len(), 3);
    assert_eq!(all[0].res, Resolution { width: 2560, height: 1440 });
    assert_eq!(all[0].freqs, vec![144]);
    assert_eq!(all[2].freqs, vec![60, 50]);
}

#[test]
fn representative_ids_and_links() {
    let db = ModeDb::new(&sample());
    assert_eq!(db.get_id(&rm(1920, 1080, 60)), 1);
    assert_eq!(db.get_id(&rm(1920, 1080, 50)), 4);
    assert_eq!(db.get_id(&rm(1280, 720, 50)), 6);
    assert_eq!(db.get_mode_by_id(1), Some(rm(1920, 1080, 60)));
    assert_eq!(db.get_mode_by_id(2), None);
    assert_eq!(db.get_mode_by_id(4), Some(rm(1920, 1080, 50)));
    assert_eq!(db.get_mode_by_id(99), None);
    assert_eq!(db.get_mode(Resolution { width: 1920, height: 1080 }, 60), Some(rm(1920, 1080, 60)));
    assert_eq!(db.get_mode(Resolution { width: 1920, height: 1080 }, 75), None);
}

#[test]
fn modes_by_ids_are_distinct() {
    let db = ModeDb::new(&sample());
    let got = db.get_modes_by_ids(&vec![1, 2, 99, 3, 1]);
    assert_eq!(got, vec![rm(1920, 1080, 60), rm(1280, 720, 60)]);
}

#[test]
fn output_collects_its_modes() {
    let db = ModeDb::new(&sample());
    let bus = BusOutput {
        id: 42,
        winsys_id: 7,
        crtc_id: -1,
        possible_crtc_ids: vec![0],
        connector_name: "HDMI-1".to_string(),
        mode_ids: vec![4, 6, 4],
        clone_ids: vec![],
        props: OutputProperties::default(),
    };
    let out = Output::new(&bus, &db);
    assert_eq!(out.id, 42);
    assert_eq!(out.possible_modes, vec![rm(1920, 1080, 50), rm(1280, 720, 50)]);
}

#[test]
fn grouping_keeps_repeats() {
    let groups = group_modes_by_res(&vec![rm(1280, 720, 50), rm(1920, 1080, 60), rm(1280, 720, 60), rm(1280, 720, 50)]);
    assert_eq!(groups.len(), 2);
    assert_eq!(groups[0].res, Resolution { width: 1920, height: 1080 });
    assert_eq!(groups[0].freqs, vec![60]);
    assert_eq!(groups[1].freqs, vec![60, 50, 50]);
    assert!(group_modes_by_res(&vec![]).is_empty());
}

#[test]
fn resolution_parsing() {
    assert_eq!(Resolution::parse("1920x1080"), Ok(Resolution { width: 1920, height: 1080 }));
    assert_eq!("640x480".parse::<Resolution>(), Ok(Resolution { width: 640, height: 480 }));
    assert_eq!(Resolution::parse("1920x"), Err(ResolutionError::WrongFormat));
    assert_eq!(Resolution::parse("x1080"), Err(ResolutionError::WrongFormat));
    assert_eq!(Resolution::parse("19a0x1080"), Err(ResolutionError::WrongFormat));
    assert_eq!(Resolution::parse("1920x1080x2"), Err(ResolutionError::WrongFormat));
    assert_eq!(Resolution::parse(""), Err(ResolutionError::WrongFormat));
    assert_eq!(Resolution::parse("4294967296x1"), Err(ResolutionError::BadWidth));
    assert_eq!(Resolution::parse("1x4294967296"), Err(ResolutionError::BadHeight));
    assert_eq!(Resolution::parse("4294967295x0"), Ok(Resolution { width: 4294967295, height: 0 }));
}

#[test]
fn transform_numbers() {
    assert_eq!(Transform::Flipped270.to_u32(), 7);
    assert_eq!(Transform::try_from_u32(1), Ok(Transform::Normal90));
    assert_eq!(Transform::try_from_u32(8), Err(TransformOutOfRange(8)));
}
