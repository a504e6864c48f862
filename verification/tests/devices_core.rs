use loop_drop::chunk::{LatchMode, ScheduleMode, Triggerable};
use loop_drop::devices::multi::MultiChunk;
use loop_drop::devices::blackbox_drums::{step_of, BlackboxDrums};
use loop_drop::devices::blackbox_sample::BlackboxSample;
use loop_drop::devices::blackbox_slicer::BlackboxSlicer;
use loop_drop::devices::blofeld_drums::BlofeldDrums;
use loop_drop::devices::cc_triggers::{CcTriggers, MidiTrigger};
use loop_drop::devices::note_book::NoteBook;
use loop_drop::devices::offset::OffsetChunk;
use loop_drop::devices::pitch_offset_chunk::{mask7, pitch_bend_bytes, PitchOffsetChunk};
use loop_drop::devices::root_offset_chunk::RootOffsetChunk;
use loop_drop::devices::scale_offset_chunk::{modulo, ScaleOffsetChunk};
use loop_drop::devices::sp404::SP404;
use loop_drop::devices::sp404_offset::SP404Offset;
use loop_drop::devices::tr08::TR08;
use loop_drop::devices::velocity_map::VelocityMap;
use loop_drop::devices::volca_sample::VolcaSample;
use loop_drop::devices::{cc_status, map_velocity, note_off_status, note_on_status, MidiMessage};
use loop_drop::midi_time::MidiTime;
use loop_drop::output_value::OutputValue;
use std::collections::HashMap;

#[test]
fn status_bytes_add_the_channel() {
    assert_eq!(note_on_status(1), 144);
    assert_eq!(note_on_status(16), 159);
    assert_eq!(note_off_status(2), 129);
    assert_eq!(cc_status(10), 185);
}

#[test]
fn velocity_map_spreads_over_entries() {
    let map = Some(vec![10u8, 20, 30, 40, 50]);
    assert_eq!(map_velocity(&map, 0), 10);
    assert_eq!(map_velocity(&map, 127), 50);
    assert_eq!(map_velocity(&map, 1), 20);
    assert_eq!(map_velocity(&map, 64), 40);
    assert_eq!(map_velocity(&map, 42), 30);
    assert_eq!(map_velocity(&map, 126), 50);
    let two = Some(vec![5u8, 9]);
    assert_eq!(map_velocity(&two, 63), 5);
    assert_eq!(map_velocity(&two, 64), 9);
    assert_eq!(map_velocity(&None, 77), 77);
    assert_eq!(map_velocity(&Some(Vec::new()), 77), 77);
}

#[test]
fn tr08_plays_its_instrument_notes() {
    let mut tr = TR08::new(10);
    tr.trigger(0, OutputValue::On(100));
    tr.trigger(15, OutputValue::On(90));
    tr.trigger(0, OutputValue::Off);
    tr.trigger(3, OutputValue::Off);
    assert_eq!(
        tr.take_messages(),
        vec![
            MidiMessage::Three(153, 36, 100),
            MidiMessage::Three(153, 62, 90),
            MidiMessage::Three(137, 36, 0),
        ]
    );
    assert!(tr.take_messages().is_empty());
}

#[test]
fn volca_sample_sets_pitch_for_upper_triggers() {
    let mut v = VolcaSample::new();
    v.trigger(1, OutputValue::On(100));
    v.trigger(9, OutputValue::On(100));
    v.trigger(9, OutputValue::Off);
    assert_eq!(
        v.take_messages(),
        vec![
            MidiMessage::Three(145, 0, 127),
            MidiMessage::Three(182, 43, 50),
            MidiMessage::Three(150, 0, 127),
        ]
    );
}

#[test]
fn blackbox_sample_releases_with_zero_velocity() {
    let mut b = BlackboxSample::new(2);
    b.trigger(9, OutputValue::On(70));
    b.trigger(9, OutputValue::Off);
    assert_eq!(b.take_messages(), vec![MidiMessage::Three(145, 49, 70), MidiMessage::Three(145, 49, 0)]);
    assert_eq!(b.latch_mode(), LatchMode::NoSuppress);
}

#[test]
fn blackbox_slicer_plays_slices() {
    let mut b = BlackboxSlicer::new(1);
    b.trigger(0, OutputValue::On(100));
    b.trigger(0, OutputValue::Off);
    let sent = b.take_messages();
    assert_eq!(sent.len(), 2);
    match (sent[0], sent[1]) {
        (MidiMessage::Three(s1, n1, v1), MidiMessage::Three(_, n2, v2)) => {
            assert_eq!(s1, 144);
            assert_eq!(n1, n2);
            assert_eq!(v1, 100);
            assert_eq!(v2, 0);
        }
        _ => panic!("note messages expected"),
    }
}

#[test]
fn blackbox_drums_accent_held_steps() {
    let mut d = BlackboxDrums::new(1, 2);
    let mut accents = HashMap::new();
    accents.insert(1u32, 127u8);
    // tick 6 is the first tick of step 1
    d.on_tick(MidiTime::from_ticks(6));
    d.trigger(0, OutputValue::On(60), &accents);
    // tick 7 is inside step 1: no accent
    d.on_tick(MidiTime::from_ticks(7));
    d.trigger(1, OutputValue::On(100), &accents);
    d.trigger(0, OutputValue::Off, &accents);
    let (sent, sync) = d.take_messages();
    assert_eq!(
        sent,
        vec![
            MidiMessage::Three(144, 48, 110),
            MidiMessage::Three(144, 49, 100),
            MidiMessage::Three(144, 48, 0),
        ]
    );
    assert_eq!(sync, vec![MidiMessage::Three(145, 36, 110), MidiMessage::Three(129, 36, 0)]);
    assert_eq!(step_of(MidiTime::from_ticks(6 * 9)), (1, true));
}

#[test]
fn blofeld_drums_take_step_levels() {
    let mut d = BlofeldDrums::new(3, 4);
    let mut levels = HashMap::new();
    levels.insert(0u32, 40u8);
    d.on_tick(MidiTime::zero());
    d.trigger(1, OutputValue::On(127), &levels);
    d.on_tick(MidiTime::from_ticks(1));
    d.trigger(2, OutputValue::On(127), &levels);
    let (sent, sync) = d.take_messages();
    assert_eq!(sent, vec![MidiMessage::Three(146, 38, 40), MidiMessage::Three(146, 39, 100)]);
    assert!(sync.is_empty());
}

#[test]
fn cc_triggers_send_and_release() {
    let triggers = vec![
        MidiTrigger::Cc(1, 20, 99),
        MidiTrigger::NoteVelocity(2, 60),
        MidiTrigger::Multi(vec![MidiTrigger::CcVelocity(1, 7), MidiTrigger::Note(1, 61, 5)]),
        MidiTrigger::Silent,
    ];
    let mut c = CcTriggers::new(triggers, None);
    c.trigger(0, OutputValue::On(100));
    c.trigger(1, OutputValue::On(90));
    c.trigger(2, OutputValue::On(80));
    c.trigger(0, OutputValue::Off);
    c.trigger(2, OutputValue::Off);
    c.trigger(3, OutputValue::On(80));
    assert_eq!(
        c.take_messages(),
        vec![
            MidiMessage::Three(176, 20, 99),
            MidiMessage::Three(145, 60, 90),
            MidiMessage::Three(176, 7, 80),
            MidiMessage::Three(144, 61, 5),
            MidiMessage::Three(176, 20, 0),
            MidiMessage::Three(176, 7, 0),
            MidiMessage::Three(144, 61, 0),
        ]
    );
}

#[test]
fn note_book_remembers_held_notes() {
    let mut book = NoteBook::new();
    book.press(4, 1, 60, 100);
    assert!(book.holds(4));
    assert!(book.release(4, 128));
    assert!(!book.holds(4));
    assert!(!book.release(4, 128));
    assert_eq!(book.take_messages(), vec![MidiMessage::Three(144, 60, 100), MidiMessage::Three(128, 60, 0)]);
}

#[test]
fn offsets_sum_held_triggers() {
    let mut o = OffsetChunk::new();
    assert_eq!(o.trigger(0, OutputValue::On(100)), -4);
    assert_eq!(o.trigger(7, OutputValue::On(100)), 0);
    assert_eq!(o.trigger(7, OutputValue::On(100)), 0);
    assert_eq!(o.trigger(0, OutputValue::Off), 4);
    let mut r = RootOffsetChunk::new();
    assert_eq!(r.trigger(5, OutputValue::On(1)), 2);
    let mut s = ScaleOffsetChunk::new();
    assert_eq!(s.trigger(0, OutputValue::On(1)), 3);
    assert_eq!(modulo(-4, 7), 3);
    assert_eq!(modulo(9, 7), 2);
}

#[test]
fn pitch_offset_bends_by_semitones() {
    assert_eq!(mask7(200), 72);
    assert_eq!(pitch_bend_bytes(0), (0, 64));
    assert_eq!(pitch_bend_bytes(1), (42, 69));
    assert_eq!(pitch_bend_bytes(-12), (0, 0));
    assert_eq!(pitch_bend_bytes(-40), (0, 0));
    let mut p = PitchOffsetChunk::new(1);
    p.trigger(4, OutputValue::On(100));
    p.trigger(4, OutputValue::Off);
    assert_eq!(p.take_messages(), vec![MidiMessage::Three(224, 42, 69), MidiMessage::Three(224, 0, 64)]);
}

#[test]
fn sp404_chokes_previous_pad() {
    let mut s = SP404::new(1, 0);
    let mut velocities = HashMap::new();
    velocities.insert(2u32, 110u8);
    s.trigger(1, OutputValue::On(127), 0, &velocities);
    s.trigger(2, OutputValue::On(127), 6, &velocities);
    s.trigger(2, OutputValue::Off, 6, &velocities);
    assert_eq!(
        s.take_messages(),
        vec![
            MidiMessage::Three(144, 48, 80),
            MidiMessage::Three(128, 48, 0),
            MidiMessage::Three(145, 61, 110),
        ]
    );
}

#[test]
fn sp404_offset_selects_bank() {
    let mut o = SP404Offset::new();
    assert_eq!(o.offset(), 0);
    o.trigger(8, OutputValue::On(100));
    assert_eq!(o.offset(), 4);
    o.trigger(4, OutputValue::On(100));
    assert_eq!(o.offset(), 5);
}

#[test]
fn velocity_steps_hold_full_velocity() {
    let mut v = VelocityMap::new();
    v.trigger(3, OutputValue::On(20));
    v.trigger(5, OutputValue::On(20));
    v.trigger(5, OutputValue::Off);
    assert_eq!(v.values().get(&3), Some(&127));
    assert_eq!(v.get_active(), vec![3]);
}

#[test]
fn multi_chunk_follows_its_first_chunk() {
    let mut multi = MultiChunk::new(vec![Box::new(VelocityMap::new()), Box::new(SP404Offset::new())]);
    multi.trigger(2, OutputValue::On(100));
    multi.on_tick(MidiTime::tick());
    assert_eq!(multi.latch_mode(), LatchMode::NoSuppress);
    assert_eq!(multi.schedule_mode(), ScheduleMode::MostRecent);
}
