//! Synthesis of the 44-byte WAV header that precedes a PCM stream.

use vstd::prelude::*;

verus! {

/// The 44 bytes of a streaming-mode WAV header for uncompressed PCM with
/// the given format: both chunk sizes are left at `0xFFFFFFFF` because the
/// stream is unbounded.
pub open spec fn spec_wav_header(sample_rate: u32, bits_per_sample: u16, num_channels: u16) -> Seq<
    u8,
> {
    let block_align = (num_channels * (bits_per_sample / 8)) as u16;
    let byte_rate = (sample_rate * block_align) as u32;
    seq![
        0x52u8, 0x49u8, 0x46u8, 0x46u8,  // "RIFF"
        0xFFu8, 0xFFu8, 0xFFu8, 0xFFu8,  // chunk size: unknown
        0x57u8, 0x41u8, 0x56u8, 0x45u8,  // "WAVE"
        0x66u8, 0x6Du8, 0x74u8, 0x20u8,  // "fmt "
        16u8, 0u8, 0u8, 0u8,  // PCM fmt chunk size
        1u8, 0u8,  // audio format: PCM
        (num_channels & 0xFF) as u8, (num_channels >> 8) as u8,
        (sample_rate & 0xFF) as u8, ((sample_rate >> 8) & 0xFF) as u8,
        ((sample_rate >> 16) & 0xFF) as u8, ((sample_rate >> 24) & 0xFF) as u8,
        (byte_rate & 0xFF) as u8, ((byte_rate >> 8) & 0xFF) as u8,
        ((byte_rate >> 16) & 0xFF) as u8, ((byte_rate >> 24) & 0xFF) as u8,
        (block_align & 0xFF) as u8, (block_align >> 8) as u8,
        (bits_per_sample & 0xFF) as u8, (bits_per_sample >> 8) as u8,
        0x64u8, 0x61u8, 0x74u8, 0x61u8,  // "data"
        0xFFu8, 0xFFu8, 0xFFu8, 0xFFu8,  // data size: streaming
    ]
}

/// Builds the WAV header emitted in front of the streamed PCM data.
pub fn wav_header(sample_rate: u32, bits_per_sample: u16, num_channels: u16) -> (header: [u8; 44])
    requires
        num_channels * (bits_per_sample / 8) <= u16::MAX,
        sample_rate * (num_channels * (bits_per_sample / 8)) <= u32::MAX,
    ensures
        header@ == spec_wav_header(sample_rate, bits_per_sample, num_channels),
{
    let block_align: u16 = num_channels * (bits_per_sample / 8);
    let byte_rate: u32 = sample_rate * block_align as u32;

    let header: [u8; 44] = [
        // RIFF chunk
        0x52, 0x49, 0x46, 0x46,
        0xFF, 0xFF, 0xFF, 0xFF,
        0x57, 0x41, 0x56, 0x45,
        // fmt chunk
        0x66, 0x6D, 0x74, 0x20,
        16, 0, 0, 0,
        1, 0,
        (num_channels & 0xFF) as u8,
        (num_channels >> 8) as u8,
        (sample_rate & 0xFF) as u8,
        ((sample_rate >> 8) & 0xFF) as u8,
        ((sample_rate >> 16) & 0xFF) as u8,
        ((sample_rate >> 24) & 0xFF) as u8,
        (byte_rate & 0xFF) as u8,
        ((byte_rate >> 8) & 0xFF) as u8,
        ((byte_rate >> 16) & 0xFF) as u8,
        ((byte_rate >> 24) & 0xFF) as u8,
        (block_align & 0xFF) as u8,
        (block_align >> 8) as u8,
        (bits_per_sample & 0xFF) as u8,
        (bits_per_sample >> 8) as u8,
        // data chunk
        0x64, 0x61, 0x74, 0x61,
        0xFF, 0xFF, 0xFF, 0xFF,
    ];

    proof {
        assert(header@ =~= spec_wav_header(sample_rate, bits_per_sample, num_channels));
    }
    header
}

} // verus!
