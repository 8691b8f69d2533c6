use angolmois::bms::Bms;
use angolmois::key::Key;
use angolmois::keyspec::{
    key_spec, key_spec_from_sides, parse_key_spec, preset_to_key_spec, KeySpec, KeySpecError, Preset,
};
use angolmois::lane::{KeyKind, Lane};
use angolmois::obj::{Obj, ObjData, SoundRef};
use angolmois::options::{Bga, Mode, Options, Ticker, VirtualInput};
use angolmois::ratio::Ratio;

fn note(lane: usize) -> Obj {
    Obj { time: Ratio::from_int(1), data: ObjData::Visible(Lane(lane), Some(SoundRef(Key(1)))) }
}

fn chart(lanes: &[usize], player: i64) -> Bms {
    let mut bms = Bms::new();
    bms.player = player;
    bms.objs = lanes.iter().map(|&l| note(l)).collect();
    bms
}

#[test]
fn key_kinds_and_their_letters() {
    assert_eq!(KeyKind::all().len(), 10);
    assert_eq!(KeyKind::all()[0], KeyKind::WhiteKey);
    assert_eq!(KeyKind::all()[9], KeyKind::Button5);
    let letters = b"aybspqwert";
    for (i, kind) in KeyKind::all().iter().enumerate() {
        assert_eq!(KeyKind::from_char(letters[i]), Some(*kind));
    }
    assert_eq!(KeyKind::from_char(b'A'), None);
    assert_eq!(KeyKind::from_char(b'x'), None);
    assert_eq!(KeyKind::WhiteKey.to_char(), b'a');
    assert_eq!(KeyKind::WhiteKeyAlt.to_char(), b'y');
    assert_eq!(KeyKind::BlackKey.to_char(), b'b');
    assert_eq!(KeyKind::Scratch.to_char(), b's');
    assert_eq!(KeyKind::FootPedal.to_char(), b'p');
    assert_eq!(KeyKind::Button1.to_char(), b'w');
    assert_eq!(KeyKind::Button2.to_char(), b'e');
    assert_eq!(KeyKind::Button3.to_char(), b'r');
    assert_eq!(KeyKind::Button4.to_char(), b't');
    assert_eq!(KeyKind::Button5.to_char(), b's');
    assert!(KeyKind::WhiteKey.counts_as_key());
    assert!(KeyKind::Button5.counts_as_key());
    assert!(!KeyKind::Scratch.counts_as_key());
    assert!(!KeyKind::FootPedal.counts_as_key());
}

#[test]
fn lanes_come_from_channels() {
    assert_eq!(Lane::from_channel(Key(36 + 1)), Lane(1));
    assert_eq!(Lane::from_channel(Key(2 * 36 + 1)), Lane(37));
    assert_eq!(Lane::from_channel(Key(3 * 36 + 35)), Lane(35));
    assert_eq!(Lane::from_channel(Key(4 * 36)), Lane(36));
    assert_eq!(Lane::from_channel(Key(5 * 36 + 9)), Lane(9));
    assert_eq!(Lane::from_channel(Key(6 * 36 + 9)), Lane(45));
    assert_eq!(Lane::from_channel(Key(13 * 36 + 2)), Lane(2));
    assert_eq!(Lane::from_channel(Key(14 * 36 + 2)), Lane(38));
}

#[test]
fn key_specs_are_read() {
    assert_eq!(
        parse_key_spec(b"  16s 11a12b  2Zt"),
        Some(vec![
            (Lane(6), KeyKind::Scratch),
            (Lane(1), KeyKind::WhiteKey),
            (Lane(2), KeyKind::BlackKey),
            (Lane(71), KeyKind::Button5),
        ])
    );
    assert_eq!(parse_key_spec(b""), Some(vec![]));
    assert_eq!(parse_key_spec(b"   "), Some(vec![]));
    assert_eq!(parse_key_spec(b"10a"), Some(vec![(Lane(0), KeyKind::WhiteKey)]));
    // channels outside of `10` to `2Z`, unknown kinds and loose ends
    assert_eq!(parse_key_spec(b"0Za"), None);
    assert_eq!(parse_key_spec(b"30a"), None);
    assert_eq!(parse_key_spec(b"11x"), None);
    assert_eq!(parse_key_spec(b"11"), None);
    assert_eq!(parse_key_spec(b"1"), None);
    assert_eq!(parse_key_spec(b"11a 1"), None);
    assert_eq!(parse_key_spec(b"11a,12b"), None);
}

#[test]
fn key_spec_from_two_sides() {
    let ks = key_spec_from_sides(1, b"16s 11a 12b", b"21a 26s").unwrap();
    assert_eq!(ks.split, 5);
    assert_eq!(ks.order, vec![Lane(6), Lane(1), Lane(2), Lane(37), Lane(42)]);
    assert_eq!(ks.kinds.len(), 72);
    assert_eq!(ks.kinds[6], Some(KeyKind::Scratch));
    assert_eq!(ks.kinds[1], Some(KeyKind::WhiteKey));
    assert_eq!(ks.kinds[42], Some(KeyKind::Scratch));
    assert_eq!(ks.kinds[0], None);
    assert_eq!(ks.nkeys(), 3);
    assert_eq!(ks.left_lanes(), &ks.order[..]);
    assert_eq!(ks.right_lanes(), &[][..]);
    // the sides are drawn apart in couple play
    let ks = key_spec_from_sides(2, b"16s 11a 12b", b"21a 26s").unwrap();
    assert_eq!(ks.split, 3);
    assert_eq!(ks.left_lanes(), &[Lane(6), Lane(1), Lane(2)][..]);
    assert_eq!(ks.right_lanes(), &[Lane(37), Lane(42)][..]);
}

#[test]
fn key_spec_errors() {
    assert_eq!(key_spec_from_sides(1, b"", b"21a").err(), Some(KeySpecError::NoKeyModel));
    assert_eq!(key_spec_from_sides(1, b"  ", b"").err(), Some(KeySpecError::InvalidLeft));
    assert_eq!(key_spec_from_sides(1, b"11", b"").err(), Some(KeySpecError::InvalidLeft));
    assert_eq!(key_spec_from_sides(1, b"11a 11b", b"").err(), Some(KeySpecError::InvalidLeft));
    assert_eq!(key_spec_from_sides(1, b"11a", b"11b").err(), Some(KeySpecError::InvalidRight));
    assert_eq!(key_spec_from_sides(1, b"11a", b"21").err(), Some(KeySpecError::InvalidRight));
    assert_eq!(key_spec_from_sides(1, b"11a", b" ").err(), Some(KeySpecError::InvalidRight));
    let bms = chart(&[1], 1);
    assert_eq!(key_spec(&bms, b"a.bms", Some(b"nothing"), None, None).err(), Some(KeySpecError::InvalidPreset));
    assert_eq!(key_spec(&bms, b"a.bms", None, None, Some(b"21a")).err(), Some(KeySpecError::NoKeyModel));
}

#[test]
fn presets_follow_the_chart() {
    let p = |lanes: &[usize], player, name: Option<&[u8]>| preset_to_key_spec(&chart(lanes, player), name);
    assert_eq!(p(&[1, 2], 1, None), Some(Preset::Five));
    assert_eq!(p(&[1, 7], 1, None), Some(Preset::FivePedal));
    assert_eq!(p(&[1, 8], 1, Some(b"BMS")), Some(Preset::Seven));
    assert_eq!(p(&[9, 36 + 7], 1, Some(b"bme")), Some(Preset::SevenPedal));
    assert_eq!(p(&[1], 2, Some(b"bml")), Some(Preset::Ten));
    assert_eq!(p(&[1, 43], 3, None), Some(Preset::TenPedal));
    assert_eq!(p(&[44], 3, None), Some(Preset::Fourteen));
    assert_eq!(p(&[45, 7], 2, None), Some(Preset::FourteenPedal));
    assert_eq!(p(&[1, 2], 1, Some(b"pms")), Some(Preset::Nine));
    assert_eq!(p(&[6], 1, Some(b"PMS")), Some(Preset::NineBme));
    assert_eq!(p(&[36 + 6], 1, Some(b"pms")), Some(Preset::Nine));
    assert_eq!(p(&[1], 1, Some(b"5")), Some(Preset::Five));
    assert_eq!(p(&[1], 1, Some(b"10/FP")), Some(Preset::TenPedal));
    assert_eq!(p(&[1], 1, Some(b"9-bme")), Some(Preset::NineBme));
    assert_eq!(p(&[1], 1, Some(b"14/fp")), Some(Preset::FourteenPedal));
    assert_eq!(p(&[1], 1, Some(b"6")), None);
    assert_eq!(p(&[1], 1, Some(b"")), None);
    assert_eq!(Preset::Seven.left_text(), b"16s 11a 12b 13a 14b 15a 18b 19a".to_vec());
    assert_eq!(Preset::Seven.right_text(), b"".to_vec());
    assert_eq!(Preset::Fourteen.right_text(), b"21a 22b 23a 24b 25a 28b 29a 26s".to_vec());
    assert_eq!(Preset::NineBme.name_text(), b"9-bme".to_vec());
}

#[test]
fn key_spec_for_a_chart() {
    let bms = chart(&[1, 8], 1);
    let ks: KeySpec = key_spec(&bms, b"song.bme", None, None, None).unwrap();
    assert_eq!(ks.order.len(), 8);
    assert_eq!(ks.split, 8);
    assert_eq!(ks.nkeys(), 7);
    // a path that ends in `.pms` asks for the buttons
    let ks = key_spec(&bms, b"song.PMS", None, None, None).unwrap();
    assert_eq!(ks.order.len(), 9);
    assert_eq!(ks.kinds[1], Some(KeyKind::Button1));
    assert_eq!(ks.kinds[8], Some(KeyKind::Button4));
    // but not where a name is given
    let ks = key_spec(&bms, b"song.pms", Some(b"5"), None, None).unwrap();
    assert_eq!(ks.order.len(), 6);
    // sides that are given win over names
    let ks = key_spec(&bms, b"song.pms", Some(b"5"), Some(b"11a"), None).unwrap();
    assert_eq!(ks.order, vec![Lane(1)]);
    let ks = key_spec(&bms, b"x", None, Some(b"11a"), Some(b"")).unwrap();
    assert_eq!(ks.order, vec![Lane(1)]);
}

#[test]
fn options_tell_what_is_shown() {
    let mut o = Options {
        bmspath: b"a.bms".to_vec(),
        mode: Mode::PlayMode,
        modf: None,
        bga: Bga::BgaAndMovie,
        showinfo: true,
        fullscreen: false,
        joystick: None,
        preset: None,
        leftkeys: None,
        rightkeys: None,
        playspeed: Ratio::from_int(1),
    };
    assert!(!o.is_exclusive() && !o.is_autoplay() && o.has_bga() && o.has_movie() && o.has_screen());
    o.mode = Mode::AutoPlayMode;
    o.bga = Bga::BgaButNoMovie;
    assert!(!o.is_exclusive() && o.is_autoplay() && o.has_bga() && !o.has_movie() && o.has_screen());
    o.mode = Mode::ExclusiveMode;
    assert!(o.is_exclusive() && o.is_autoplay() && o.has_screen());
    o.bga = Bga::NoBga;
    assert!(!o.has_bga() && !o.has_movie() && !o.has_screen());
    o.mode = Mode::PlayMode;
    assert!(o.has_screen());
}

#[test]
fn ticker_waits_for_its_interval() {
    let mut t = Ticker::new();
    assert_eq!(t.interval, 47);
    let mut calls = 0;
    assert!(t.on_tick(1000, || calls += 1));
    assert!(!t.on_tick(1046, || calls += 1));
    assert!(t.on_tick(1047, || calls += 1));
    assert_eq!(t.lastinfo, Some(1047));
    assert!(!t.on_tick(1000, || calls += 1));
    t.reset();
    assert_eq!(t.lastinfo, None);
    assert!(t.on_tick(1048, || calls += 1));
    assert_eq!(calls, 3);
}

#[test]
fn virtual_inputs_in_a_key_spec() {
    let ks = key_spec_from_sides(1, b"16s 11a", b"").unwrap();
    assert!(VirtualInput::LaneInput(Lane(6)).active_in_key_spec(KeyKind::Scratch, &ks));
    assert!(!VirtualInput::LaneInput(Lane(6)).active_in_key_spec(KeyKind::WhiteKey, &ks));
    assert!(!VirtualInput::LaneInput(Lane(2)).active_in_key_spec(KeyKind::WhiteKey, &ks));
    assert!(!VirtualInput::LaneInput(Lane(200)).active_in_key_spec(KeyKind::WhiteKey, &ks));
    assert!(VirtualInput::SpeedUpInput.active_in_key_spec(KeyKind::WhiteKey, &ks));
    assert!(VirtualInput::SpeedDownInput.active_in_key_spec(KeyKind::Button1, &ks));
}

#[test]
fn version_names_the_program() {
    assert_eq!(angolmois::options::version(), b"Angolmois 2.0.0 alpha 2 (rust edition)".to_vec());
}
