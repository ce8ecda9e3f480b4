use upalla::buffer::AudioBuf;
use upalla::chunk::FRAME_SIZE;
use upalla::clock::{elapsed, UnderrunWatch, WarnLimit};
use upalla::ring::{
    cushion_deficit, feed, open_ring, play, prefill, pump_input, pump_output, push_queued, top_up,
    OUTPUT_PREFILL_FRAMES, RINGBUF_CAP,
};

#[test]
fn samples_pass_a_ring_in_order() {
    let (mut prod, mut cons) = open_ring(8);
    assert_eq!(feed(&mut prod, &[1, 2, 3, 4, 5]), 0);
    let mut out = vec![99; 3];
    assert_eq!(play(&mut cons, &mut out), 3);
    assert_eq!(out, vec![1, 2, 3]);
    assert_eq!(feed(&mut prod, &[6, 7, 8, 9, 10, 11, 12]), 1, "only six places are free");
    let mut out = vec![99; 10];
    assert_eq!(play(&mut cons, &mut out), 8);
    assert_eq!(out, vec![4, 5, 6, 7, 8, 9, 10, 11, 0, 0], "what is missing is silence");
}

#[test]
fn an_empty_ring_plays_silence() {
    let (_prod, mut cons) = open_ring(4);
    let mut out = vec![7; 5];
    assert_eq!(play(&mut cons, &mut out), 0);
    assert_eq!(out, vec![0; 5]);
}

#[test]
fn input_moves_in_pieces_of_the_scratch_space() {
    let (mut prod, mut cons) = open_ring(RINGBUF_CAP);
    let samples: Vec<u32> = (0..5000).collect();
    assert_eq!(feed(&mut prod, &samples), 0);
    let mut buf = AudioBuf::new();
    let mut temp = vec![0; 4096];
    pump_input(&mut cons, &mut buf, &mut temp);
    assert_eq!(buf.len(), 4096);
    assert_eq!(temp.len(), 4096);
    pump_input(&mut cons, &mut buf, &mut temp);
    assert_eq!(buf.len(), 5000);
    pump_input(&mut cons, &mut buf, &mut temp);
    assert_eq!(buf.take_available(5000), samples);
}

#[test]
fn a_fresh_output_ring_starts_with_the_cushion() {
    let (mut prod, mut cons) = open_ring(RINGBUF_CAP);
    prefill(&mut prod);
    assert_eq!(feed(&mut prod, &[5]), 0);
    let mut out = vec![9; OUTPUT_PREFILL_FRAMES * FRAME_SIZE + 1];
    assert_eq!(play(&mut cons, &mut out), out.len());
    assert!(out[..out.len() - 1].iter().all(|&s| s == 0));
    assert_eq!(out[out.len() - 1], 5);
}

#[test]
fn a_dry_output_ring_is_topped_up_before_audio() {
    let (mut prod, mut cons) = open_ring(RINGBUF_CAP);
    let mut buf = AudioBuf::new();
    let audio: Vec<u32> = (1..=FRAME_SIZE as u32).collect();
    buf.extend(&audio);
    pump_output(&mut prod, &mut buf);
    assert_eq!(buf.len(), 0);
    let mut out = vec![9; OUTPUT_PREFILL_FRAMES * FRAME_SIZE];
    assert_eq!(play(&mut cons, &mut out), out.len());
    let gap = (OUTPUT_PREFILL_FRAMES - 1) * FRAME_SIZE;
    assert!(out[..gap].iter().all(|&s| s == 0));
    assert_eq!(&out[gap..], &audio[..]);
}

#[test]
fn a_well_filled_output_ring_gets_no_silence() {
    let (mut prod, mut cons) = open_ring(RINGBUF_CAP);
    prefill(&mut prod);
    let mut buf = AudioBuf::new();
    buf.extend(&[7, 8]);
    pump_output(&mut prod, &mut buf);
    let mut out = vec![9; OUTPUT_PREFILL_FRAMES * FRAME_SIZE];
    play(&mut cons, &mut out);
    let mut out = vec![9; 3];
    assert_eq!(play(&mut cons, &mut out), 2, "just the audio follows the cushion");
    assert_eq!(out, vec![7, 8, 0]);
}

#[test]
fn the_cushion_follows_what_the_ring_answers() {
    for (occupied, silence) in [(0, 3 * FRAME_SIZE - 2), (FRAME_SIZE, 2 * FRAME_SIZE - 2), (2 * FRAME_SIZE, 0)] {
        let (mut prod, mut cons) = open_ring(RINGBUF_CAP);
        let mut buf = AudioBuf::new();
        buf.extend(&[7, 8]);
        top_up(&mut prod, &mut buf, occupied, RINGBUF_CAP);
        assert_eq!(buf.len(), 0);
        let mut out = vec![9; silence + 3];
        assert_eq!(play(&mut cons, &mut out), silence + 2);
        assert!(out[..silence].iter().all(|&s| s == 0));
        assert_eq!(&out[silence..], &[7, 8, 0]);
    }
}

#[test]
fn queued_audio_waits_while_the_ring_is_full() {
    let (mut prod, mut cons) = open_ring(4);
    let mut buf = AudioBuf::new();
    buf.extend(&[1, 2, 3, 4, 5, 6]);
    push_queued(&mut prod, &mut buf);
    assert_eq!(buf.len(), 2);
    push_queued(&mut prod, &mut buf);
    assert_eq!(buf.len(), 2);
    let mut out = vec![0; 3];
    play(&mut cons, &mut out);
    push_queued(&mut prod, &mut buf);
    assert_eq!(buf.len(), 0);
    let mut out = vec![0; 3];
    play(&mut cons, &mut out);
    assert_eq!(out, vec![4, 5, 6]);
}

#[test]
fn the_cushion_lacks_what_is_neither_in_the_ring_nor_queued() {
    assert_eq!(cushion_deficit(0, 0, RINGBUF_CAP), 3 * FRAME_SIZE);
    assert_eq!(cushion_deficit(FRAME_SIZE, 100, RINGBUF_CAP), 2 * FRAME_SIZE - 100);
    assert_eq!(cushion_deficit(2 * FRAME_SIZE, 0, RINGBUF_CAP), 0, "above the low-water mark");
    assert_eq!(cushion_deficit(0, 3 * FRAME_SIZE, RINGBUF_CAP), 0, "queued audio covers it");
    assert_eq!(cushion_deficit(0, usize::MAX, RINGBUF_CAP), 0);
    assert_eq!(cushion_deficit(0, 0, 10), 10, "no more than fits");
}

#[test]
fn warnings_come_once_a_second() {
    let mut limit = WarnLimit::new();
    assert!(!limit.pass(0));
    assert!(limit.pass(5));
    assert!(!limit.pass(5));
    assert!(limit.pass(6));
    assert_eq!(elapsed(10, 4), 6);
    assert_eq!(elapsed(4, 10), 0);
}

#[test]
fn an_idle_stream_is_not_starved() {
    let mut watch = UnderrunWatch::new();
    assert_eq!(watch.note(0, 100, 1), None, "nothing has flowed yet");
    assert_eq!(watch.note(100, 100, 1), None);
    assert_eq!(watch.note(40, 100, 2), Some(60));
    assert_eq!(watch.note(40, 100, 2), None, "warned in this second already");
    assert_eq!(watch.note(0, 100, 3), Some(100));
}
