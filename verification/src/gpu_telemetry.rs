//! Adapter-wide GPU memory telemetry records: which adapter to read (the
//! one with the most dedicated video memory) and the sample built from what
//! it reports. On targets without a GPU memory query the sample reports the
//! telemetry as unavailable.

use vstd::prelude::*;

verus! {

/// How much of a telemetry sample could be read.
#[derive(Clone, Debug, PartialEq)]
pub enum GpuTelemetryStatus {
    Available,
    Partial,
    Unavailable(String),
}

/// One reading of the adapter's identity and video-memory figures (bytes).
#[derive(Clone, Debug, PartialEq)]
pub struct GpuTelemetrySample {
    pub status: GpuTelemetryStatus,
    pub description: String,
    pub vendor_id: u32,
    pub device_id: u32,
    pub dedicated_video_memory_bytes: u64,
    pub vram_budget_bytes: u64,
    pub vram_usage_bytes: u64,
    pub vram_reservation_bytes: u64,
}

impl GpuTelemetrySample {
    /// Whether the sample holds live memory figures.
    pub fn is_available(&self) -> (b: bool)
        ensures
            b == (self.status is Available),
    {
        match self.status {
            GpuTelemetryStatus::Available => true,
            _ => false,
        }
    }
}

/// A sample that reports the telemetry as unavailable for `reason`, with an
/// empty description and every figure zero.
pub fn unavailable(reason: &str) -> (s: GpuTelemetrySample)
    ensures
        s.status matches GpuTelemetryStatus::Unavailable(r) && r@ == reason@,
        s.description@.len() == 0,
        s.vendor_id == 0,
        s.device_id == 0,
        s.dedicated_video_memory_bytes == 0,
        s.vram_budget_bytes == 0,
        s.vram_usage_bytes == 0,
        s.vram_reservation_bytes == 0,
{
    GpuTelemetrySample {
        status: GpuTelemetryStatus::Unavailable(reason.to_string()),
        description: String::new(),
        vendor_id: 0,
        device_id: 0,
        dedicated_video_memory_bytes: 0,
        vram_budget_bytes: 0,
        vram_usage_bytes: 0,
        vram_reservation_bytes: 0,
    }
}

/// Reads GPU telemetry. This build has no GPU memory query, so the sample
/// is always unavailable, with an explanation and all figures zero.
pub fn sample() -> (s: GpuTelemetrySample)
    ensures
        s.status matches GpuTelemetryStatus::Unavailable(reason)
            && reason@ == "GPU telemetry not supported on this OS"@,
        s.description@.len() == 0,
        s.vendor_id == 0,
        s.device_id == 0,
        s.dedicated_video_memory_bytes == 0,
        s.vram_budget_bytes == 0,
        s.vram_usage_bytes == 0,
        s.vram_reservation_bytes == 0,
{
    unavailable("GPU telemetry not supported on this OS")
}

/// Which of the enumerated adapters to read: the first one with the largest
/// dedicated video memory (`dedicated[k]` for adapter `k`, zero where its
/// description could not be read); `None` when there is no adapter.
pub fn best_adapter_index(dedicated: &[u64]) -> (best: Option<usize>)
    ensures
        best is None <==> dedicated@.len() == 0,
        best matches Some(i) ==> {
            &&& i < dedicated@.len()
            &&& forall|j: int| 0 <= j < dedicated@.len() ==> dedicated@[j] <= dedicated@[i as int]
            &&& forall|j: int| 0 <= j < i ==> dedicated@[j] < dedicated@[i as int]
        },
{
    if dedicated.len() == 0 {
        return None;
    }
    let mut best: usize = 0;
    let mut k: usize = 1;
    while k < dedicated.len()
        invariant
            1 <= k <= dedicated@.len(),
            best < k,
            forall|j: int| 0 <= j < k ==> dedicated@[j] <= dedicated@[best as int],
            forall|j: int| 0 <= j < best ==> dedicated@[j] < dedicated@[best as int],
        decreases dedicated@.len() - k,
    {
        if dedicated[k] > dedicated[best] {
            best = k;
        }
        k = k + 1;
    }
    Some(best)
}

/// The sample for the chosen adapter: its identity and dedicated memory,
/// and, when the adapter's memory query answered, its budget, usage and
/// reservation (`Available`); otherwise those three are zero (`Partial`).
pub fn adapter_sample(
    description: String,
    vendor_id: u32,
    device_id: u32,
    dedicated_video_memory_bytes: u64,
    memory: Option<(u64, u64, u64)>,
) -> (s: GpuTelemetrySample)
    ensures
        s.description@ == description@,
        s.vendor_id == vendor_id,
        s.device_id == device_id,
        s.dedicated_video_memory_bytes == dedicated_video_memory_bytes,
        match memory {
            Some((budget, usage, reservation)) => {
                &&& s.status is Available
                &&& s.vram_budget_bytes == budget
                &&& s.vram_usage_bytes == usage
                &&& s.vram_reservation_bytes == reservation
            },
            None => {
                &&& s.status is Partial
                &&& s.vram_budget_bytes == 0
                &&& s.vram_usage_bytes == 0
                &&& s.vram_reservation_bytes == 0
            },
        },
{
    match memory {
        Some((budget, usage, reservation)) => GpuTelemetrySample {
            status: GpuTelemetryStatus::Available,
            description,
            vendor_id,
            device_id,
            dedicated_video_memory_bytes,
            vram_budget_bytes: budget,
            vram_usage_bytes: usage,
            vram_reservation_bytes: reservation,
        },
        None => GpuTelemetrySample {
            status: GpuTelemetryStatus::Partial,
            description,
            vendor_id,
            device_id,
            dedicated_video_memory_bytes,
            vram_budget_bytes: 0,
            vram_usage_bytes: 0,
            vram_reservation_bytes: 0,
        },
    }
}

} // verus!
