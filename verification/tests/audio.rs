use ncspot_core::audio::pipewire_sink::{
    bytes_of_16, bytes_of_32, bytes_per_frame, fill_buffer, latency, open_ring, plan_write,
    spa_format, AudioFormat, PipeWireSink, Ready, SinkError, SpaFormat, StartStep, WritePlan,
    WriteStep, DEFAULT_QUANTUM,
};

fn connected(format: AudioFormat, quantum: u32) -> (PipeWireSink, rtrb::Consumer<u8>) {
    let (producer, consumer) = open_ring(format, quantum);
    let mut sink = PipeWireSink::new(None, format, quantum);
    assert_eq!(sink.connected(producer, Ready::Connected), Ok(()));
    (sink, consumer)
}

#[test]
fn frames_have_two_samples() {
    assert_eq!(bytes_per_frame(AudioFormat::S16), 4);
    assert_eq!(bytes_per_frame(AudioFormat::S24_3), 6);
    assert_eq!(bytes_per_frame(AudioFormat::S24), 8);
    assert_eq!(bytes_per_frame(AudioFormat::F64), 16);
}

#[test]
fn three_formats_are_supported() {
    assert_eq!(spa_format(AudioFormat::S16), Ok(SpaFormat::S16LE));
    assert_eq!(spa_format(AudioFormat::S32), Ok(SpaFormat::S32LE));
    assert_eq!(spa_format(AudioFormat::F32), Ok(SpaFormat::F32LE));
    assert_eq!(
        spa_format(AudioFormat::S24_3),
        Err(SinkError::InvalidParams(
            "audio format S24_3 is not supported by the pipewire backend, use S16, S32 or F32"
                .into()
        ))
    );
}

#[test]
fn latency_is_a_share_of_a_second() {
    assert_eq!(latency(DEFAULT_QUANTUM), "1024/44100");
}

#[test]
fn the_ring_holds_eight_quanta() {
    let (producer, consumer) = open_ring(AudioFormat::S16, 16);
    assert_eq!(producer.slots(), 8 * 16 * 4);
    assert_eq!(consumer.slots(), 0);
}

#[test]
fn writing_is_planned() {
    assert_eq!(plan_write(true, 5, 5), WritePlan::Died);
    assert_eq!(plan_write(false, 0, 5), WritePlan::Wait);
    assert_eq!(plan_write(false, 3, 5), WritePlan::Write(3));
    assert_eq!(plan_write(false, 9, 5), WritePlan::Write(5));
}

#[test]
fn bytes_arrive_in_order_in_several_steps() {
    let (mut sink, mut consumer) = connected(AudioFormat::S16, 1);
    let bytes: Vec<u8> = (0..40).collect();
    let mut written: usize = 0;
    match sink.write(&bytes, written) {
        WriteStep::Full {
            written: reached,
            wait_nanos,
        } => {
            assert_eq!(reached, 32);
            assert_eq!(wait_nanos, 11_000);
            written = reached;
        }
        other => panic!("the ring is full: {other:?}"),
    }
    let mut out = [0xffu8; 20];
    let filled = fill_buffer(&mut consumer, &mut out, 4, 0);
    assert_eq!((filled.audio, filled.size), (20, 20));
    assert_eq!(out[..], bytes[..20]);
    assert!(matches!(sink.write(&bytes, written), WriteStep::Done));
    let mut rest = [0xffu8; 26];
    let filled = fill_buffer(&mut consumer, &mut rest, 4, 0);
    assert_eq!((filled.audio, filled.size), (20, 24));
    assert_eq!(rest[..20], bytes[20..]);
    assert_eq!(rest[20..24], [0, 0, 0, 0]);
    assert_eq!(rest[24..], [0xff, 0xff]);
}

#[test]
fn a_stream_gets_what_it_asks_for() {
    let (mut sink, mut consumer) = connected(AudioFormat::S16, 4);
    let bytes: Vec<u8> = (0..16).collect();
    assert!(matches!(sink.write(&bytes, 0), WriteStep::Done));
    let mut out = [9u8; 16];
    let filled = fill_buffer(&mut consumer, &mut out, 4, 2);
    assert_eq!((filled.audio, filled.size), (8, 8));
    assert_eq!(out[8..], [9; 8]);
    // Half a frame stays in the ring.
    assert!(matches!(sink.write(&bytes, 14), WriteStep::Done));
    let filled = fill_buffer(&mut consumer, &mut out, 4, 4);
    assert_eq!((filled.audio, filled.size), (8, 16));
    assert_eq!(out[8..], [0; 8]);
    assert_eq!(consumer.slots(), 2);
}

#[test]
fn a_dead_stream_fails_the_write() {
    let (mut sink, consumer) = connected(AudioFormat::S16, 4);
    drop(consumer);
    match sink.write(&[1, 2, 3, 4], 0) {
        WriteStep::Failed { written, error } => {
            assert_eq!(written, 0);
            assert_eq!(error, SinkError::NotConnected("pipewire thread died".into()));
        }
        other => panic!("the stream is gone: {other:?}"),
    }
    // Nothing to write does not fail.
    assert!(matches!(sink.write(&[], 0), WriteStep::Done));
}

#[test]
fn the_stream_is_spawned_once() {
    let mut sink = PipeWireSink::new(Some("device".into()), AudioFormat::F32, 256);
    assert_eq!(sink.device.as_deref(), Some("device"));
    assert_eq!(sink.start(), StartStep::Spawn);
    let not_running = Err(SinkError::NotConnected("pipewire thread not running".into()));
    assert_eq!(sink.running(), not_running);
    match sink.write(&[1], 0) {
        WriteStep::Failed { error, .. } => assert_eq!(Err(error), not_running),
        other => panic!("there is no stream: {other:?}"),
    }
    let (producer, _consumer) = open_ring(AudioFormat::F32, 256);
    assert_eq!(
        sink.connected(producer, Ready::Failed("no server".into())),
        Err(SinkError::ConnectionRefused("no server".into()))
    );
    let (producer, _consumer) = open_ring(AudioFormat::F32, 256);
    assert_eq!(
        sink.connected(producer, Ready::TimedOut),
        Err(SinkError::ConnectionRefused(
            "timed out waiting for the PipeWire stream to connect".into()
        ))
    );
    assert_eq!(sink.start(), StartStep::Spawn);
    let (producer, _consumer) = open_ring(AudioFormat::F32, 256);
    assert_eq!(sink.connected(producer, Ready::Connected), Ok(()));
    assert_eq!(sink.start(), StartStep::Activate);
    assert_eq!(sink.running(), Ok(()));
}

#[test]
fn commands_are_delivered_or_not() {
    assert_eq!(PipeWireSink::sent(true), Ok(()));
    assert_eq!(
        PipeWireSink::sent(false),
        Err(SinkError::NotConnected("pipewire thread died".into()))
    );
}

#[test]
fn samples_are_little_endian() {
    assert_eq!(bytes_of_16(&[0x0102, 0xfffe]), vec![0x02, 0x01, 0xfe, 0xff]);
    assert_eq!(
        bytes_of_32(&[0x01020304, 0x80000000]),
        vec![4, 3, 2, 1, 0, 0, 0, 0x80]
    );
    let sample: f32 = -0.5;
    assert_eq!(bytes_of_32(&[sample.to_bits()]), sample.to_le_bytes().to_vec());
    let sample: i16 = -2;
    assert_eq!(bytes_of_16(&[sample as u16]), sample.to_le_bytes().to_vec());
}

#[test]
fn a_full_ring_is_waited_for_half_a_quantum() {
    // 1024 frames are 23219 whole microseconds.
    let sink = PipeWireSink::new(None, AudioFormat::S16, DEFAULT_QUANTUM);
    assert_eq!(sink.wait_nanos(), 11_609_500);
}
