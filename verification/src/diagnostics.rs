//! Local self-checks of the printer front end.

use vstd::prelude::*;
use vstd::string::*;

use crate::error::SlipbridgeError;
use crate::render::{
    lemma_packed_rows_len, render_image_for_thermal, row_bytes, RenderOptions, RgbaPixels,
};
use crate::text::{decimal, push_decimal, push_str, string_of};

verus! {

/// Outcome of one check.
#[derive(Copy, Clone, Debug, PartialEq, Eq, Structural)]
pub enum CheckStatus {
    Pass,
    Warn,
    Fail,
}

/// One named check and what it found.
#[derive(Clone, Debug)]
pub struct DoctorCheck {
    pub name: String,
    pub status: CheckStatus,
    pub detail: String,
}

/// All checks of a doctor run.
#[derive(Clone, Debug)]
pub struct DoctorReport {
    pub checks: Vec<DoctorCheck>,
}

/// No check failed.
pub open spec fn report_ok(checks: Seq<DoctorCheck>) -> bool {
    forall|i: int| 0 <= i < checks.len() ==> #[trigger] checks[i].status != CheckStatus::Fail
}

impl DoctorReport {
    /// Whether no check failed; warnings do not count against the report.
    pub fn is_ok(&self) -> (r: bool)
        ensures
            r == report_ok(self.checks@),
    {
        let mut i: usize = 0;
        while i < self.checks.len()
            invariant
                i <= self.checks@.len(),
                forall|k: int| 0 <= k < i ==> #[trigger] self.checks@[k].status != CheckStatus::Fail,
            decreases self.checks@.len() - i,
        {
            if self.checks[i].status == CheckStatus::Fail {
                return false;
            }
            i = i + 1;
        }
        true
    }
}

/// What probing the USB subsystem found.
#[derive(Debug)]
pub enum UsbProbe {
    /// The USB context could not be set up; the error text.
    ContextFailed(String),
    /// The devices could not be listed; the error text.
    EnumerationFailed(String),
    /// This many devices were listed.
    Enumerated(usize),
}

/// The outcome of the USB check for a probe: it fails when the devices cannot be
/// listed, warns when there are none, and passes otherwise.
pub open spec fn usb_status(probe: UsbProbe) -> CheckStatus {
    match probe {
        UsbProbe::ContextFailed(_) => CheckStatus::Fail,
        UsbProbe::EnumerationFailed(_) => CheckStatus::Fail,
        UsbProbe::Enumerated(n) => if n == 0 {
            CheckStatus::Warn
        } else {
            CheckStatus::Pass
        },
    }
}

/// The detail the USB check reports for a probe.
pub open spec fn usb_detail(probe: UsbProbe) -> Seq<char> {
    match probe {
        UsbProbe::ContextFailed(e) => "failed to initialize USB context: "@ + e@,
        UsbProbe::EnumerationFailed(e) => "failed to enumerate USB devices: "@ + e@,
        UsbProbe::Enumerated(n) => "enumerated "@ + decimal(n as nat) + " USB devices"@,
    }
}

/// The detail the image pipeline check reports for its 16 x 16 sample.
pub open spec fn image_pipeline_detail() -> Seq<char> {
    "rendered "@ + decimal(16) + "x"@ + decimal(16) + " image into "@ + decimal(32) + " bytes"@
}

/// The detail of the TCP transport check.
pub open spec fn tcp_transport_detail() -> Seq<char> {
    "tcp transport support compiled in (connectivity not tested)"@
}

/// The check that USB devices can be listed.
pub fn usb_access_check(probe: UsbProbe) -> (c: DoctorCheck)
    ensures
        c.name@ == "usb_access"@,
        c.status == usb_status(probe),
        c.detail@ == usb_detail(probe),
        probe is ContextFailed || probe is EnumerationFailed ==> c.status == CheckStatus::Fail,
{
    match probe {
        UsbProbe::ContextFailed(e) => {
            let mut detail = string_of("failed to initialize USB context: ");
            push_str(&mut detail, e.as_str());
            DoctorCheck { name: string_of("usb_access"), status: CheckStatus::Fail, detail }
        },
        UsbProbe::EnumerationFailed(e) => {
            let mut detail = string_of("failed to enumerate USB devices: ");
            push_str(&mut detail, e.as_str());
            DoctorCheck { name: string_of("usb_access"), status: CheckStatus::Fail, detail }
        },
        UsbProbe::Enumerated(n) => {
            let status = if n == 0 {
                CheckStatus::Warn
            } else {
                CheckStatus::Pass
            };
            let mut detail = string_of("enumerated ");
            push_decimal(&mut detail, n as u128);
            push_str(&mut detail, " USB devices");
            DoctorCheck { name: string_of("usb_access"), status, detail }
        },
    }
}

/// A 16 x 16 checkerboard, black where `x + y` is even.
fn checkerboard() -> (image: RgbaPixels)
    ensures
        image.wf(),
        image.width == 16,
        image.height == 16,
{
    let mut data: Vec<u8> = Vec::new();
    let mut y: u32 = 0;
    while y < 16
        invariant
            y <= 16,
            data@.len() == 64 * y,
        decreases 16 - y,
    {
        let mut x: u32 = 0;
        while x < 16
            invariant
                y < 16,
                x <= 16,
                data@.len() == 64 * y + 4 * x,
            decreases 16 - x,
        {
            let level: u8 = if (x + y) % 2 == 0 {
                0
            } else {
                255
            };
            data.push(level);
            data.push(level);
            data.push(level);
            data.push(255);
            x = x + 1;
        }
        y = y + 1;
    }
    RgbaPixels { width: 16, height: 16, data }
}

/// The check that the image pipeline works: a 16 x 16 checkerboard is rendered for
/// 58 mm paper, which always succeeds and gives 16 rows of 2 bytes.
pub fn image_pipeline_check() -> (c: DoctorCheck)
    ensures
        c.name@ == "image_pipeline"@,
        c.status == CheckStatus::Pass,
        c.detail@ == image_pipeline_detail(),
{
    let sample = checkerboard();
    match render_image_for_thermal(sample, RenderOptions { max_width: 384 }, 16) {
        Ok(rendered) => {
            proof {
                lemma_packed_rows_len(
                    crate::render::rendered_luma(sample, RenderOptions { max_width: 384 }, 16),
                    16,
                    16,
                );
                assert(row_bytes(16) == 2);
            }
            let mut detail = string_of("rendered ");
            push_decimal(&mut detail, rendered.width_px as u128);
            push_str(&mut detail, "x");
            push_decimal(&mut detail, rendered.height_px as u128);
            push_str(&mut detail, " image into ");
            push_decimal(&mut detail, rendered.raster_data.len() as u128);
            push_str(&mut detail, " bytes");
            DoctorCheck { name: string_of("image_pipeline"), status: CheckStatus::Pass, detail }
        },
        Err(err) => {
            let mut detail = string_of("render pipeline failed: ");
            push_str(&mut detail, err.to_string().as_str());
            DoctorCheck { name: string_of("image_pipeline"), status: CheckStatus::Fail, detail }
        },
    }
}

/// The TCP transport check, which can only warn that connectivity is not tested.
pub fn tcp_transport_check() -> (c: DoctorCheck)
    ensures
        c.name@ == "transport_tcp"@,
        c.status == CheckStatus::Warn,
        c.detail@ == tcp_transport_detail(),
{
    DoctorCheck {
        name: string_of("transport_tcp"),
        status: CheckStatus::Warn,
        detail: string_of("tcp transport support compiled in (connectivity not tested)"),
    }
}

/// Runs the doctor's checks, given what probing USB found: USB access, the image
/// pipeline and the TCP transport, in that order.
pub fn run_doctor(usb: UsbProbe) -> (r: Result<DoctorReport, SlipbridgeError>)
    ensures
        r matches Ok(report) && {
            let c = report.checks@;
            &&& c.len() == 3
            &&& c[0].name@ == "usb_access"@ && c[0].status == usb_status(usb) && c[0].detail@
                == usb_detail(usb)
            &&& c[1].name@ == "image_pipeline"@ && c[1].status == CheckStatus::Pass
                && c[1].detail@ == image_pipeline_detail()
            &&& c[2].name@ == "transport_tcp"@ && c[2].status == CheckStatus::Warn
                && c[2].detail@ == tcp_transport_detail()
            &&& (usb is ContextFailed || usb is EnumerationFailed) ==> c[0].status == CheckStatus::Fail
                && !report_ok(c)
        },
{
    let mut checks: Vec<DoctorCheck> = Vec::new();
    checks.push(usb_access_check(usb));
    checks.push(image_pipeline_check());
    checks.push(tcp_transport_check());
    Ok(DoctorReport { checks })
}

/// USB devices that cannot be listed fail the doctor: whatever the error text, the
/// USB check of the report fails, so the report is not ok.
pub proof fn law_unlistable_usb_fails_doctor(probe: UsbProbe, checks: Seq<DoctorCheck>)
    requires
        probe is ContextFailed || probe is EnumerationFailed,
        checks.len() >= 1,
        checks[0].status == usb_status(probe),
    ensures
        checks[0].status == CheckStatus::Fail,
        !report_ok(checks),
{
    assert(checks[0].status == CheckStatus::Fail);
}

} // verus!
