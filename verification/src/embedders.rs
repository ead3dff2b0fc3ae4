//! Embedder-side decisions: the inference device and its labels, and the
//! character cap on text handed to the tokenizer.
use vstd::prelude::*;
use crate::text::{chars_of, string_of, string_of_range, ascii_lower_chars, ascii_lower_seq, chars_eq};

verus! {

/// Where the dense model runs.
#[derive(Debug, Clone, Copy, PartialEq, Eq, Structural)]
pub enum InferenceDevice {
    Cpu,
    Cuda,
    DirectMl,
}

pub open spec fn device_label(d: InferenceDevice) -> Seq<char> {
    match d {
        InferenceDevice::Cpu => "CPU"@,
        InferenceDevice::Cuda => "CUDA (GPU)"@,
        InferenceDevice::DirectMl => "DirectML (GPU)"@,
    }
}

pub open spec fn device_fallback_label(d: InferenceDevice) -> Seq<char> {
    match d {
        InferenceDevice::Cpu => "CPU"@,
        InferenceDevice::Cuda => "CPU (CUDA fallback)"@,
        InferenceDevice::DirectMl => "CPU (DirectML fallback)"@,
    }
}

impl InferenceDevice {
    /// Whether the device is a GPU execution provider.
    pub fn is_gpu(self) -> (r: bool)
        ensures
            r == (self != InferenceDevice::Cpu),
    {
        match self {
            InferenceDevice::Cpu => false,
            InferenceDevice::Cuda => true,
            InferenceDevice::DirectMl => true,
        }
    }

    /// Human-readable name of the device.
    pub fn label(self) -> (r: &'static str)
        ensures
            r@ == device_label(self),
    {
        match self {
            InferenceDevice::Cpu => "CPU",
            InferenceDevice::Cuda => "CUDA (GPU)",
            InferenceDevice::DirectMl => "DirectML (GPU)",
        }
    }

    /// Name shown when the device fell back to the CPU.
    pub fn fallback_label(self) -> (r: &'static str)
        ensures
            r@ == device_fallback_label(self),
    {
        match self {
            InferenceDevice::Cpu => "CPU",
            InferenceDevice::Cuda => "CPU (CUDA fallback)",
            InferenceDevice::DirectMl => "CPU (DirectML fallback)",
        }
    }
}

/// The device to embed on: the CPU when the user asked for `cpu` (in any
/// ASCII case), otherwise the device the build enables.
pub fn choose_embedding_device(requested: Option<&str>, build_device: InferenceDevice) -> (r: (
    InferenceDevice,
    String,
))
    ensures
        r.0 == (match requested {
            Some(v) => if ascii_lower_seq(v@) == "cpu"@ {
                InferenceDevice::Cpu
            } else {
                build_device
            },
            None => build_device,
        }),
        r.1@ == device_label(r.0),
{
    let dev = match requested {
        Some(v) => {
            let lower = ascii_lower_chars(&chars_of(v));
            if chars_eq(&lower, &chars_of("cpu")) {
                InferenceDevice::Cpu
            } else {
                build_device
            }
        },
        None => build_device,
    };
    (dev, dev.label().to_owned())
}

/// At most this many characters go to the tokenizer.
pub const MAX_TOKENIZE_CHARS: usize = 4000;

/// The first `MAX_TOKENIZE_CHARS` characters of `text`.
pub open spec fn clamped_for_tokenize(s: Seq<char>) -> Seq<char> {
    if s.len() <= MAX_TOKENIZE_CHARS {
        s
    } else {
        s.take(MAX_TOKENIZE_CHARS as int)
    }
}

/// Caps the text fed to the tokenizer at `MAX_TOKENIZE_CHARS` characters.
pub fn clamp_text_for_tokenize(text: &str) -> (r: String)
    ensures
        r@ == clamped_for_tokenize(text@),
{
    let v = chars_of(text);
    if v.len() <= MAX_TOKENIZE_CHARS {
        string_of(&v)
    } else {
        string_of_range(&v, 0, MAX_TOKENIZE_CHARS)
    }
}

} // verus!
