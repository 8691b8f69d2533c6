use angolmois::bms::{BlitCmd, Bms};
use angolmois::directive::{parse_directive, Directive, Header, Span};
use angolmois::key::Key;
use angolmois::lane::Lane;
use angolmois::obj::{BGALayer, Damage, Duration, ImageRef, Obj, ObjData, SoundRef, BPM};
use angolmois::parse::parse_bms_from_reader;
use angolmois::ratio::Ratio;
use angolmois::rng::Rng;

/// A source that hands out the numbers of a list, each brought into the
/// range that is asked for.
#[derive(Clone)]
struct Fixed {
    values: Vec<i64>,
    at: usize,
    asked: Vec<(i64, i64)>,
}

impl Fixed {
    fn new(values: &[i64]) -> Fixed {
        Fixed { values: values.to_vec(), at: 0, asked: Vec::new() }
    }
}

impl Rng for Fixed {
    fn upcoming(&self, low: i64, high: i64) -> i64 {
        let v = self.values[self.at % self.values.len()];
        low + (v - low).rem_euclid(high - low)
    }

    fn advanced(&self, low: i64, high: i64) -> Fixed {
        let mut after = self.clone();
        after.asked.push((low, high));
        after.at += 1;
        after
    }

    fn gen_range(&mut self, low: i64, high: i64) -> i64 {
        let v = self.upcoming(low, high);
        *self = self.advanced(low, high);
        v
    }
}

fn r(n: i64, d: i64) -> Ratio {
    Ratio::new(n, d).unwrap()
}

fn parse(text: &str) -> Bms {
    parse_bms_from_reader(text.as_bytes(), &mut Fixed::new(&[1]))
}

fn parse_with(text: &str, draws: &[i64]) -> (Bms, Vec<(i64, i64)>) {
    let mut rng = Fixed::new(draws);
    let bms = parse_bms_from_reader(text.as_bytes(), &mut rng);
    (bms, rng.asked)
}

fn key(s: &str) -> Key {
    Key::decode(s.as_bytes()).unwrap()
}

fn snd(s: &str) -> Option<SoundRef> {
    Some(SoundRef(key(s)))
}

fn poor0() -> Obj {
    Obj { time: r(0, 1), data: ObjData::SetBGA(BGALayer::PoorBGA, Some(ImageRef(Key(0)))) }
}

#[test]
fn empty_file_gives_the_default_chart() {
    let bms = parse("");
    assert_eq!(bms.title, None);
    assert_eq!(bms.player, 1);
    assert_eq!(bms.playlevel, 0);
    assert_eq!(bms.rank, 2);
    assert_eq!(bms.initbpm, BPM(r(130, 1)));
    assert_eq!(bms.sndpath.len(), 1296);
    assert_eq!(bms.imgpath.len(), 1296);
    assert!(bms.sndpath.iter().all(|p| p.is_none()));
    assert_eq!(bms.objs, vec![poor0()]);
    assert_eq!(bms.shortens, vec![]);
    assert_eq!(bms.nmeasures, 1);
}

#[test]
fn headers_are_read() {
    let bms = parse(
        "#TITLE  A song  \r\n#genre Thing\n  #Artist\tSomeone\n#STAGEFILE st.png\n#PATH_WAV dir/\n\
         #BPM 150.5\n#PLAYER 3\n#PLAYLEVEL 7\n#RANK 3\n#WAV01 kick.wav\n#BMPzz back.png \n\
         #BGA01 02 1 2 3 4 5 -6\n",
    );
    assert_eq!(bms.title, Some(b"A song".to_vec()));
    assert_eq!(bms.genre, Some(b"Thing".to_vec()));
    assert_eq!(bms.artist, Some(b"Someone".to_vec()));
    assert_eq!(bms.stagefile, Some(b"st.png".to_vec()));
    assert_eq!(bms.basepath, Some(b"dir/".to_vec()));
    assert_eq!(bms.initbpm, BPM(r(301, 2)));
    assert_eq!(bms.player, 3);
    assert_eq!(bms.playlevel, 7);
    assert_eq!(bms.rank, 3);
    assert_eq!(bms.sndpath[1], Some(b"kick.wav".to_vec()));
    assert_eq!(bms.imgpath[1295], Some(b"back.png".to_vec()));
    assert_eq!(
        bms.blitcmd,
        vec![BlitCmd {
            dst: ImageRef(Key(1)),
            src: ImageRef(Key(2)),
            x1: 1,
            y1: 2,
            x2: 3,
            y2: 4,
            dx: 5,
            dy: -6
        }]
    );
}

#[test]
fn malformed_lines_are_skipped() {
    let bms = parse(
        "TITLE no hash\n#TITLE\n#PLAYER x\n#BPM\n#BPM abc\n#WAV0 x.wav\n#WAV01\n#WAV01 \n\
         #BGA01 02 1 2 3 4 5\n#0011:01\n#00111 01\n#00111:\n#00111:   \n#xyz\n#ENDSW\n",
    );
    // `#TITLE` without a blank says nothing, and neither does the rest
    assert_eq!(bms.title, None);
    assert_eq!(bms.player, 1);
    assert_eq!(bms.initbpm, BPM(r(130, 1)));
    assert_eq!(bms.sndpath[1], None);
    assert!(bms.blitcmd.is_empty());
    assert_eq!(bms.objs, vec![poor0()]);
    assert_eq!(bms.nmeasures, 1);
}

#[test]
fn title_may_be_empty_but_needs_a_blank() {
    assert_eq!(parse("#TITLE \n").title, Some(vec![]));
    assert_eq!(parse("#TITLE    \n").title, Some(vec![]));
    assert_eq!(parse("#TITLEx\n").title, None);
}

#[test]
fn directives_one_by_one() {
    assert_eq!(parse_directive(b"#title  Hi "), Directive::Text(Header::Title, Span { from: 8, to: 10 }));
    assert_eq!(parse_directive(b"  #PLAYLEVEL 12abc"), Directive::Value(Header::PlayLevel, 12));
    assert_eq!(parse_directive(b"#PLAYER 2"), Directive::Value(Header::Player, 2));
    assert_eq!(parse_directive(b"#LNTYPE 2"), Directive::Value(Header::LnType, 2));
    assert_eq!(parse_directive(b"#LNOBJ zz"), Directive::LnObj(Key(1295)));
    assert_eq!(parse_directive(b"#BPM 120"), Directive::InitBpm(r(120, 1)));
    assert_eq!(parse_directive(b"#BPM01 60.5"), Directive::BpmEntry(Key(1), r(121, 2)));
    assert_eq!(parse_directive(b"#BPM12"), Directive::Nothing);
    assert_eq!(parse_directive(b"#STOP0a 96"), Directive::StopEntry(Key(10), 96));
    assert_eq!(parse_directive(b"#STP001.500 1500"), Directive::Stp(1, 500, 1500));
    assert_eq!(parse_directive(b"#STP001.500 0"), Directive::Nothing);
    assert_eq!(parse_directive(b"#STP001.500 -5"), Directive::Nothing);
    assert_eq!(parse_directive(b"#STP01.500 5"), Directive::Nothing);
    assert_eq!(parse_directive(b"#RANDOM 3"), Directive::Random(3));
    assert_eq!(parse_directive(b"#random -3"), Directive::Random(-3));
    assert_eq!(parse_directive(b"#RANDOM"), Directive::Nothing);
    assert_eq!(parse_directive(b"#SETRANDOM 2"), Directive::SetRandom(2));
    assert_eq!(parse_directive(b"#ENDRANDOM"), Directive::EndRandom);
    assert_eq!(parse_directive(b"#IF 1"), Directive::If(1));
    assert_eq!(parse_directive(b"#ELSEIF 2"), Directive::ElseIf(2));
    assert_eq!(parse_directive(b"#ELSE"), Directive::Else);
    assert_eq!(parse_directive(b"#ENDIF"), Directive::End);
    assert_eq!(parse_directive(b"#END"), Directive::End);
    assert_eq!(parse_directive(b"#ENDSW"), Directive::Nothing);
    assert_eq!(parse_directive(b"#01211: 0102 "), Directive::Data(12, Key(37), Span { from: 8, to: 12 }));
    assert_eq!(parse_directive(b"#WAVzz  a b  "), Directive::Path(Header::Wav, Key(1295), Span { from: 8, to: 11 }));
    assert_eq!(parse_directive(b"hello"), Directive::Nothing);
    assert_eq!(parse_directive(b""), Directive::Nothing);
    assert_eq!(parse_directive(b"#"), Directive::Nothing);
}

#[test]
fn tokens_are_spread_over_the_measure() {
    let bms = parse("#00211:01000203\n");
    let lane = Lane(1);
    assert_eq!(
        bms.objs,
        vec![
            Obj { time: r(2, 1), data: ObjData::Visible(lane, snd("01")) },
            Obj { time: r(5, 2), data: ObjData::Visible(lane, snd("02")) },
            Obj { time: r(11, 4), data: ObjData::Visible(lane, snd("03")) },
            poor0(),
            // the last visible note of a lane could still become a long
            // note, so the lane gets an end behind the last measure
            Obj { time: r(3, 1), data: ObjData::LNDone(lane, None) },
        ]
    );
    assert_eq!(bms.nmeasures, 3);
}

#[test]
fn odd_character_and_bad_tokens_are_ignored() {
    // five characters make two tokens; the token `0-` is no key
    let bms = parse("#00111:0-01x\n");
    assert_eq!(
        bms.objs,
        vec![
            Obj { time: r(3, 2), data: ObjData::Visible(Lane(1), snd("01")) },
            poor0(),
            Obj { time: r(2, 1), data: ObjData::LNDone(Lane(1), None) },
        ]
    );
    // thirds of a measure are exact
    let bms = parse("#00011:010203\n");
    assert_eq!(bms.objs[1].time, r(1, 3));
    assert_eq!(bms.objs[2].time, r(2, 3));
}

#[test]
fn channels_place_their_objects() {
    let bms = parse(
        "#BPM01 88.5\n#STOP02 48\n#00001:0A\n#00003:7F\n#00003:GG\n#00004:0B\n#00006:0C\n#00007:0D\n\
         #00008:01\n#00009:02\n#0000A:0E\n#00031:0F\n#00042:0G\n#000D1:01\n#000D2:5K\n#000D3:ZZ\n\
         #000D4:5L\n#00099:01\n",
    );
    let t = r(0, 1);
    assert_eq!(
        bms.objs,
        vec![
            Obj { time: t, data: ObjData::BGM(SoundRef(key("0A"))) },
            Obj { time: t, data: ObjData::SetBPM(BPM(r(127, 1))) },
            Obj { time: t, data: ObjData::SetBGA(BGALayer::Layer1, Some(ImageRef(key("0B")))) },
            Obj { time: t, data: ObjData::SetBGA(BGALayer::PoorBGA, Some(ImageRef(key("0C")))) },
            Obj { time: t, data: ObjData::SetBGA(BGALayer::Layer2, Some(ImageRef(key("0D")))) },
            Obj { time: t, data: ObjData::SetBPM(BPM(r(177, 2))) },
            Obj { time: t, data: ObjData::Stop(Duration::Measures(r(1, 4))) },
            Obj { time: t, data: ObjData::SetBGA(BGALayer::Layer3, Some(ImageRef(key("0E")))) },
            Obj { time: t, data: ObjData::Invisible(Lane(1), snd("0F")) },
            Obj { time: t, data: ObjData::Invisible(Lane(38), snd("0G")) },
            Obj {
                time: t,
                data: ObjData::Bomb(Lane(1), Some(SoundRef(Key(0))), Damage::GaugeDamage(r(1, 200))),
            },
            Obj {
                time: t,
                data: ObjData::Bomb(Lane(2), Some(SoundRef(Key(0))), Damage::GaugeDamage(r(1, 1))),
            },
            Obj { time: t, data: ObjData::Bomb(Lane(3), Some(SoundRef(Key(0))), Damage::InstantDeath) },
        ]
    );
}

#[test]
fn lines_are_put_in_order_of_measure_and_channel() {
    let bms = parse("#00212:02\n#00111:01\n#00211:03\n#00112:04\n#00111:05\n");
    let objs: Vec<(Ratio, Option<SoundRef>)> = bms
        .objs
        .iter()
        .filter_map(|o| match o.data {
            ObjData::Visible(_, s) => Some((o.time, s)),
            _ => None,
        })
        .collect();
    assert_eq!(
        objs,
        vec![
            (r(1, 1), snd("01")),
            (r(1, 1), snd("05")),
            (r(1, 1), snd("04")),
            (r(2, 1), snd("03")),
            (r(2, 1), snd("02")),
        ]
    );
    assert_eq!(bms.nmeasures, 3);
}

#[test]
fn measure_scaling_is_read_from_channel_two() {
    let bms = parse("#00302:0.75\n#00102: 1.5\n#00502:0.001\n#00602:abc\n#00702:-2\n");
    assert_eq!(bms.shortens, vec![r(1, 1), r(3, 2), r(1, 1), r(3, 4)]);
    assert_eq!(bms.nmeasures, 8);
    let bms = parse("#00002:0.0011\n");
    assert_eq!(bms.shortens, vec![r(11, 10000)]);
}

#[test]
fn stp_places_a_stop_in_seconds() {
    let bms = parse("#STP002.250 1500\n#STP003.1500 20\n");
    assert_eq!(
        bms.objs,
        vec![
            Obj { time: r(9, 4), data: ObjData::Stop(Duration::Seconds(r(3, 2))) },
            Obj { time: r(9, 2), data: ObjData::Stop(Duration::Seconds(r(1, 50))) },
            poor0(),
        ]
    );
}

#[test]
fn poor_bga_at_the_origin_is_added_only_if_none_is_placed() {
    // an image for missed notes later in the chart leaves the origin bare
    let bms = parse("#00106:01\n");
    assert_eq!(
        bms.objs,
        vec![Obj { time: r(1, 1), data: ObjData::SetBGA(BGALayer::PoorBGA, Some(ImageRef(Key(1)))) }, poor0()]
    );
    // one at the origin does not
    let bms = parse("#00006:01\n");
    assert_eq!(
        bms.objs,
        vec![Obj { time: r(0, 1), data: ObjData::SetBGA(BGALayer::PoorBGA, Some(ImageRef(Key(1)))) }]
    );
    // the second key of the row stands in the middle of the measure
    let bms = parse("#00006:0001\n");
    assert_eq!(
        bms.objs,
        vec![Obj { time: r(1, 2), data: ObjData::SetBGA(BGALayer::PoorBGA, Some(ImageRef(Key(1)))) }, poor0()]
    );
    let bms = parse("#00106:01\n#00006:02\n");
    assert_eq!(
        bms.objs,
        vec![
            Obj { time: r(0, 1), data: ObjData::SetBGA(BGALayer::PoorBGA, Some(ImageRef(Key(2)))) },
            Obj { time: r(1, 1), data: ObjData::SetBGA(BGALayer::PoorBGA, Some(ImageRef(Key(1)))) },
        ]
    );
}

#[test]
fn a_tempo_change_in_a_random_block_is_taken_with_a_draw_of_one() {
    let text = "#00102:0000000000000000\n#RANDOM 2\n#IF 1\n#00103:78\n#ENDIF\n#ENDRANDOM\n";
    let (bms, asked) = parse_with(text, &[1]);
    assert_eq!(asked, vec![(1, 3)]);
    assert_eq!(bms.objs, vec![Obj { time: r(1, 1), data: ObjData::SetBPM(BPM(r(120, 1))) }, poor0()]);
    assert_eq!(bms.shorten(1), r(1, 1));
    assert_eq!(bms.nmeasures, 2);
}

#[test]
fn a_tempo_change_in_a_random_block_is_left_out_with_a_draw_of_two() {
    let text = "#00102:0000000000000000\n#RANDOM 2\n#IF 1\n#00103:78\n#ENDIF\n#ENDRANDOM\n";
    let (bms, asked) = parse_with(text, &[2]);
    assert_eq!(asked, vec![(1, 3)]);
    assert_eq!(bms.objs, vec![poor0()]);
    assert_eq!(bms.initbpm, BPM(r(130, 1)));
    assert_eq!(bms.nmeasures, 2);
}

#[test]
fn a_random_block_that_is_passed_over_asks_the_source_for_nothing() {
    let text = "#RANDOM 2\n#IF 1\n#RANDOM 5\n#ENDRANDOM\n#ENDIF\n#ENDRANDOM\n";
    let (_, asked) = parse_with(text, &[2, 4]);
    assert_eq!(asked, vec![(1, 3)]);
    let (_, asked) = parse_with(text, &[1, 4]);
    assert_eq!(asked, vec![(1, 3), (1, 6)]);
}

#[test]
fn random_block_with_seed_that_draws_one_includes_the_tempo() {
    let text = "#00102:0000000000000000\n#RANDOM 2\n#IF 1\n#BPM 200\n#ENDIF\n";
    let (bms, asked) = parse_with(text, &[1]);
    assert_eq!(asked, vec![(1, 3)]);
    assert_eq!(bms.initbpm, BPM(r(200, 1)));
    assert!(bms.shortens.is_empty());
}

#[test]
fn random_block_with_seed_that_draws_two_excludes_the_tempo() {
    let text = "#00102:0000000000000000\n#RANDOM 2\n#IF 1\n#BPM 200\n#ENDIF\n";
    let (bms, asked) = parse_with(text, &[2]);
    assert_eq!(asked, vec![(1, 3)]);
    assert_eq!(bms.initbpm, BPM(r(130, 1)));
}

#[test]
fn elseif_and_else_take_the_first_clause_that_fits() {
    let text = "#SETRANDOM 2\n#IF 1\n#TITLE one\n#ELSEIF 2\n#TITLE two\n#ELSEIF 2\n#TITLE again\n\
                #ELSE\n#TITLE other\n#ENDIF\n#GENRE after\n";
    let (bms, asked) = parse_with(text, &[1]);
    assert!(asked.is_empty());
    assert_eq!(bms.title, Some(b"two".to_vec()));
    assert_eq!(bms.genre, Some(b"after".to_vec()));
    let text = "#SETRANDOM 3\n#IF 1\n#TITLE one\n#ELSEIF 2\n#TITLE two\n#ELSE\n#TITLE other\n#ENDIF\n";
    assert_eq!(parse(text).title, Some(b"other".to_vec()));
}

#[test]
fn random_without_a_number_above_zero_never_fits() {
    let text = "#RANDOM 0\n#IF 1\n#TITLE one\n#ELSE\n#TITLE other\n#ENDIF\n#IF 0\n#GENRE zero\n#ENDIF\n";
    let (bms, asked) = parse_with(text, &[1]);
    assert!(asked.is_empty());
    assert_eq!(bms.title, Some(b"other".to_vec()));
    assert_eq!(bms.genre, None);
}

#[test]
fn nothing_is_drawn_where_lines_are_passed_over() {
    let text = "#RANDOM 2\n#IF 2\n#RANDOM 5\n#IF 1\n#TITLE inner\n#ENDIF\n#ENDRANDOM\n#ENDIF\n\
                #RANDOM 3\n#IF 3\n#GENRE last\n#ENDIF\n";
    // the first draw is 1, so the clause `#IF 2` is passed over and the
    // `#RANDOM 5` in it draws nothing; the next draw goes to `#RANDOM 3`
    let (bms, asked) = parse_with(text, &[1, 3]);
    assert_eq!(asked, vec![(1, 3), (1, 4)]);
    assert_eq!(bms.title, None);
    assert_eq!(bms.genre, Some(b"last".to_vec()));
    // with a first draw of 2 the inner block draws as well
    let (bms, asked) = parse_with(text, &[2, 1, 3]);
    assert_eq!(asked, vec![(1, 3), (1, 6), (1, 4)]);
    assert_eq!(bms.title, Some(b"inner".to_vec()));
    assert_eq!(bms.genre, Some(b"last".to_vec()));
}

#[test]
fn endrandom_at_the_root_does_nothing() {
    let bms = parse("#ENDRANDOM\n#ENDRANDOM\n#TITLE ok\n");
    assert_eq!(bms.title, Some(b"ok".to_vec()));
}

#[test]
fn endpoint_long_notes_pair_up() {
    // tokens `5A` then `5A` in the same lane at measures 1 and 2
    let bms = parse("#00151:5A\n#00251:5A\n");
    assert_eq!(
        bms.objs,
        vec![
            Obj { time: r(1, 1), data: ObjData::LNStart(Lane(1), snd("5A")) },
            Obj { time: r(2, 1), data: ObjData::LNDone(Lane(1), snd("5A")) },
            poor0(),
        ]
    );
}

#[test]
fn endpoint_long_note_left_open_is_closed_at_the_end() {
    let bms = parse("#00151:5A\n#00251:5A\n#00351:5B\n");
    assert_eq!(bms.nmeasures, 4);
    assert_eq!(
        bms.objs,
        vec![
            Obj { time: r(1, 1), data: ObjData::LNStart(Lane(1), snd("5A")) },
            Obj { time: r(2, 1), data: ObjData::LNDone(Lane(1), snd("5A")) },
            Obj { time: r(3, 1), data: ObjData::LNStart(Lane(1), snd("5B")) },
            poor0(),
            Obj { time: r(4, 1), data: ObjData::LNDone(Lane(1), None) },
        ]
    );
}

#[test]
fn area_long_notes_in_adjacent_slots_merge() {
    let bms = parse("#LNTYPE 2\n#00151:005A5A00\n");
    assert_eq!(
        bms.objs,
        vec![
            Obj { time: r(5, 4), data: ObjData::LNStart(Lane(1), snd("5A")) },
            Obj { time: r(7, 4), data: ObjData::LNDone(Lane(1), snd("5A")) },
            poor0(),
        ]
    );
}

#[test]
fn area_long_notes_merge_across_measures_and_split_on_gaps() {
    let bms = parse("#LNTYPE 2\n#00151:005A\n#00251:5A005B00\n");
    assert_eq!(
        bms.objs,
        vec![
            Obj { time: r(3, 2), data: ObjData::LNStart(Lane(1), snd("5A")) },
            Obj { time: r(9, 4), data: ObjData::LNDone(Lane(1), snd("5A")) },
            Obj { time: r(5, 2), data: ObjData::LNStart(Lane(1), snd("5B")) },
            Obj { time: r(11, 4), data: ObjData::LNDone(Lane(1), snd("5B")) },
            poor0(),
        ]
    );
}

#[test]
fn lnobj_turns_the_last_visible_note_into_a_long_note() {
    let bms = parse("#LNOBJ ZZ\n#00111:01ZZ02ZZ\n#00211:ZZ03\n");
    assert_eq!(
        bms.objs,
        vec![
            Obj { time: r(1, 1), data: ObjData::LNStart(Lane(1), snd("01")) },
            Obj { time: r(5, 4), data: ObjData::LNDone(Lane(1), snd("ZZ")) },
            Obj { time: r(3, 2), data: ObjData::LNStart(Lane(1), snd("02")) },
            Obj { time: r(7, 4), data: ObjData::LNDone(Lane(1), snd("ZZ")) },
            Obj { time: r(5, 2), data: ObjData::Visible(Lane(1), snd("03")) },
            poor0(),
            Obj { time: r(3, 1), data: ObjData::LNDone(Lane(1), None) },
        ]
    );
}

#[test]
fn lines_without_line_feed_at_the_end_count() {
    assert_eq!(parse("#TITLE a\n#GENRE b").genre, Some(b"b".to_vec()));
    assert_eq!(parse("#TITLE a").title, Some(b"a".to_vec()));
}
