//! Paper widths and the limits that go with them.

use vstd::prelude::*;

use crate::cli::PaperArg;

verus! {

/// A supported paper width.
#[derive(Copy, Clone, Debug, PartialEq, Eq, Structural)]
pub enum PaperProfile {
    Mm58,
    Mm80,
}

/// The paper profile a command-line paper choice stands for.
pub open spec fn paper_of(value: PaperArg) -> PaperProfile {
    match value {
        PaperArg::Mm58 => PaperProfile::Mm58,
        PaperArg::Mm80 => PaperProfile::Mm80,
    }
}

impl From<PaperArg> for PaperProfile {
    fn from(value: PaperArg) -> (r: Self) {
        match value {
            PaperArg::Mm58 => PaperProfile::Mm58,
            PaperArg::Mm80 => PaperProfile::Mm80,
        }
    }
}

impl vstd::std_specs::convert::FromSpecImpl<PaperArg> for PaperProfile {
    open spec fn obeys_from_spec() -> bool {
        true
    }

    open spec fn from_spec(value: PaperArg) -> Self {
        paper_of(value)
    }
}

impl PaperProfile {
    /// The width as shown to the user.
    pub fn as_str(self) -> (r: &'static str)
        ensures
            r@ == (match self {
                PaperProfile::Mm58 => "58mm"@,
                PaperProfile::Mm80 => "80mm"@,
            }),
    {
        match self {
            PaperProfile::Mm58 => "58mm",
            PaperProfile::Mm80 => "80mm",
        }
    }
}

/// Printable width and transfer limits for a paper width.
#[derive(Copy, Clone, Debug)]
pub struct PrinterProfile {
    pub paper: PaperProfile,
    pub printable_width_px: u32,
    pub max_raster_payload_bytes: usize,
    pub transport_chunk_bytes: usize,
    pub max_rows_per_command: u16,
}

impl PrinterProfile {
    /// The profile of a paper width: 384 printable dots on 58 mm paper and 576 on
    /// 80 mm (8 dots per mm), raster payloads of at most 3072 and 4096 bytes, writes of
    /// 4096 bytes and at most 255 rows per raster command.
    pub fn for_paper(paper: PaperProfile) -> (r: Self)
        ensures
            r.paper == paper,
            r.printable_width_px == (match paper {
                PaperProfile::Mm58 => 384u32,
                PaperProfile::Mm80 => 576u32,
            }),
            r.max_raster_payload_bytes == (match paper {
                PaperProfile::Mm58 => 3072usize,
                PaperProfile::Mm80 => 4096usize,
            }),
            r.transport_chunk_bytes == 4096,
            r.max_rows_per_command == 255,
    {
        match paper {
            PaperProfile::Mm58 => PrinterProfile {
                paper,
                printable_width_px: 384,
                max_raster_payload_bytes: 3_072,
                transport_chunk_bytes: 4_096,
                max_rows_per_command: 255,
            },
            PaperProfile::Mm80 => PrinterProfile {
                paper,
                printable_width_px: 576,
                max_raster_payload_bytes: 4_096,
                transport_chunk_bytes: 4_096,
                max_rows_per_command: 255,
            },
        }
    }
}

} // verus!
