use heapless::spsc::{Consumer, Producer, Queue};
use sbus_cppm::sbus::{DecoderState, Error, FatalError, SbusDecoder, SbusFrame};

fn setup() -> (
    Producer<'static, Result<u8, u8>>,
    SbusDecoder,
    Consumer<'static, Result<SbusFrame, Error>>,
) {
    let byte_queue: &'static mut Queue<Result<u8, u8>, 32> = Box::leak(Box::new(Queue::new()));
    let (byte_producer, byte_consumer) = byte_queue.split();
    let message_queue: &'static mut Queue<Result<SbusFrame, Error>, 9> =
        Box::leak(Box::new(Queue::new()));
    let (message_producer, message_consumer) = message_queue.split();
    let decoder = SbusDecoder::new(byte_consumer, message_producer);
    (byte_producer, decoder, message_consumer)
}

// Alternating max value, min value for each channel.
// Bool channels == 1, failsafe == 0
const VALID_FRAME: [u8; 25] = [
    0x0f,
    0b1111_1110,
    0b0000_0111,
    0b1100_0000,
    0b1111_1111,
    0b0000_0001,
    0b1111_0000,
    0b0111_1111,
    0b0000_0000,
    0b1111_1100,
    0b0001_1111,
    0b0000_0000,
    0b1111_1111,
    0b0000_0111,
    0b1100_0000,
    0b1111_1111,
    0b0000_0001,
    0b1111_0000,
    0b0111_1111,
    0b0000_0000,
    0b1111_1100,
    0b0001_1111,
    0b0000_0000,
    0b0000_0011,
    0b0000_0000,
];

fn expected_valid_frame() -> SbusFrame {
    SbusFrame {
        channels: [
            0b111_1111_1110,
            0,
            0b111_1111_1111,
            0,
            0b111_1111_1111,
            0,
            0b111_1111_1111,
            0,
            0b111_1111_1111,
            0,
            0b111_1111_1111,
            0,
            0b111_1111_1111,
            0,
            0b111_1111_1111,
            0,
        ],
        digital_channels: [true, true],
    }
}

#[test]
fn sbus_decoder_decodess_single_valid_input() {
    let (mut byte_producer, mut decoder, mut message_consumer) = setup();

    for byte in &VALID_FRAME {
        byte_producer.enqueue(Ok(*byte)).unwrap();
    }

    let result = decoder.process().expect("Decode error");
    assert!(matches!(result, DecoderState::WaitForHeader));

    let decoded = message_consumer.dequeue();

    let expected = expected_valid_frame();
    assert_eq!(
        decoded
            .expect("Expected a message")
            .expect("Expected message not to be Err"),
        expected
    );
}

#[test]
fn sbus_decoder_detects_incorrect_stop_byte() {
    let (mut byte_producer, mut decoder, mut message_consumer) = setup();

    byte_producer
        .enqueue(Ok(0x0f))
        .expect("Failed to enqueue header");
    for _ in 0..24 {
        byte_producer
            .enqueue(Ok(0x01))
            .expect("Failed to enqueue byte");
    }

    decoder.process().unwrap();

    let decoded = message_consumer.dequeue();
    assert_eq!(decoded, Some(Err(Error::MissingFooter)));

    // Enqueue some simulated bytes
    byte_producer
        .enqueue(Ok(0x0f))
        .expect("failed to enqueue intermediate byte");
    byte_producer
        .enqueue(Ok(1))
        .expect("failed to enqueue intermediate byte");
    byte_producer
        .enqueue(Ok(1))
        .expect("failed to enqueue intermediate byte");

    // Enqueue a simulated stop byte
    byte_producer
        .enqueue(Ok(0))
        .expect("failed to enqueue simulated stop byte");

    decoder.process().unwrap();

    // Enqueue a full valid message
    for byte in &VALID_FRAME {
        byte_producer.enqueue(Ok(*byte)).unwrap();
    }

    decoder.process().unwrap();

    let decoded = message_consumer.dequeue();

    let expected = expected_valid_frame();
    assert_eq!(
        decoded
            .expect("Expected a message")
            .expect("Expected message not to be Err"),
        expected
    );
}

#[test]
fn sbus_decoder_detects_failsafes() {
    let (mut byte_producer, mut decoder, mut message_consumer) = setup();

    // Alternating max value, min value for each channel.
    // Bool channels == 1, failsafe == 1
    let bytes: [u8; 25] = [
        0x0f,
        0b1111_1111,
        0b0000_0111,
        0b1100_0000,
        0b1111_1111,
        0b0000_0001,
        0b1111_0000,
        0b0111_1111,
        0b0000_0000,
        0b1111_1100,
        0b0001_1111,
        0b0000_0000,
        0b1111_1111,
        0b0000_0111,
        0b1100_0000,
        0b1111_1111,
        0b0000_0001,
        0b1111_0000,
        0b0111_1111,
        0b0000_0000,
        0b1111_1100,
        0b0001_1111,
        0b0000_0000,
        0b0000_0111,
        0b0000_0000,
    ];

    for byte in &bytes {
        byte_producer.enqueue(Ok(*byte)).unwrap();
    }

    decoder.process().unwrap();

    let expected_frame = SbusFrame {
        channels: [
            0b111_1111_1111,
            0,
            0b111_1111_1111,
            0,
            0b111_1111_1111,
            0,
            0b111_1111_1111,
            0,
            0b111_1111_1111,
            0,
            0b111_1111_1111,
            0,
            0b111_1111_1111,
            0,
            0b111_1111_1111,
            0,
        ],
        digital_channels: [true, true],
    };

    let decoded = message_consumer.dequeue();
    assert_eq!(decoded, Some(Err(Error::Failsafe(expected_frame))));
}

#[test]
fn sbus_decoder_reports_missing_header() {
    let (mut byte_producer, mut decoder, mut message_consumer) = setup();

    byte_producer.enqueue(Ok(0x42)).unwrap();
    let result = decoder.process().unwrap();
    assert!(matches!(result, DecoderState::Recover));
    assert_eq!(message_consumer.dequeue(), Some(Err(Error::MissingHeader)));
}

#[test]
fn sbus_decoder_surfaces_transport_errors_mid_frame() {
    let (mut byte_producer, mut decoder, mut message_consumer) = setup();

    // Header and ten payload bytes, then a transport error from the UART.
    byte_producer.enqueue(Ok(0x0f)).unwrap();
    for _ in 0..10 {
        byte_producer.enqueue(Ok(0x55)).unwrap();
    }
    byte_producer.enqueue(Err(7)).unwrap();
    let result = decoder.process().unwrap();
    assert!(matches!(result, DecoderState::Recover));
    assert_eq!(message_consumer.dequeue(), Some(Err(Error::ByteReadError(7))));

    // Bytes up to the next synchronization boundary are discarded.
    byte_producer.enqueue(Ok(0x0f)).unwrap();
    byte_producer.enqueue(Ok(0x33)).unwrap();
    byte_producer.enqueue(Ok(0x00)).unwrap();
    decoder.process().unwrap();
    assert_eq!(message_consumer.dequeue(), None);

    // The next full frame comes through.
    for byte in &VALID_FRAME {
        byte_producer.enqueue(Ok(*byte)).unwrap();
    }
    decoder.process().unwrap();
    assert_eq!(
        message_consumer.dequeue(),
        Some(Ok(expected_valid_frame()))
    );
}

#[test]
fn sbus_decoder_channels_repack_to_payload() {
    let (mut byte_producer, mut decoder, mut message_consumer) = setup();

    for byte in &VALID_FRAME {
        byte_producer.enqueue(Ok(*byte)).unwrap();
    }
    decoder.process().unwrap();
    let frame = message_consumer.dequeue().unwrap().unwrap();

    // Repack the sixteen 11-bit values into a little-endian bitstream and
    // compare with the payload bytes that were fed in.
    let mut repacked = [0u8; 22];
    for k in 0..16 {
        for j in 0..11 {
            let bit = (frame.channels[k] >> j) & 1;
            let pos = 11 * k + j;
            repacked[pos / 8] |= (bit as u8) << (pos % 8);
        }
    }
    assert_eq!(repacked, VALID_FRAME[1..23]);
}

#[test]
fn sbus_decoder_channel_values_fit_eleven_bits() {
    let (mut byte_producer, mut decoder, mut message_consumer) = setup();

    // All payload bits set: every channel must cap at 2047.
    byte_producer.enqueue(Ok(0x0f)).unwrap();
    for _ in 0..22 {
        byte_producer.enqueue(Ok(0xff)).unwrap();
    }
    byte_producer.enqueue(Ok(0x00)).unwrap();
    byte_producer.enqueue(Ok(0x00)).unwrap();
    decoder.process().unwrap();

    let frame = message_consumer.dequeue().unwrap().unwrap();
    for k in 0..16 {
        assert_eq!(frame.channels[k], 2047);
    }
    assert_eq!(frame.digital_channels, [false, false]);
}

#[test]
fn sbus_decoder_reports_full_frame_channel() {
    let (mut byte_producer, mut decoder, mut message_consumer) = setup();

    // The frame output queue holds eight messages; the ninth frame cannot be
    // delivered and is handed back as the fatal backpressure fault.
    for _ in 0..8 {
        for byte in &VALID_FRAME {
            byte_producer.enqueue(Ok(*byte)).unwrap();
        }
        decoder.process().unwrap();
    }
    for byte in &VALID_FRAME {
        byte_producer.enqueue(Ok(*byte)).unwrap();
    }
    let result = decoder.process();
    match result {
        Err(FatalError::FrameChannelFull(Ok(frame))) => {
            assert_eq!(frame, expected_valid_frame())
        }
        other => panic!("expected the backpressure fault, got {:?}", other),
    }

    // All eight earlier messages are still there, in order.
    for _ in 0..8 {
        assert_eq!(message_consumer.dequeue(), Some(Ok(expected_valid_frame())));
    }
    assert_eq!(message_consumer.dequeue(), None);

    // After draining, a synchronization boundary and a fresh frame recover.
    byte_producer.enqueue(Ok(0x00)).unwrap();
    for byte in &VALID_FRAME {
        byte_producer.enqueue(Ok(*byte)).unwrap();
    }
    decoder.process().unwrap();
    assert_eq!(
        message_consumer.dequeue(),
        Some(Ok(expected_valid_frame()))
    );
}
