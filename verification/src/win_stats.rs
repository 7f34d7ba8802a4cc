//! The statistics collector for Windows, which has no POSIX shell. It prints
//! the same shape as the other collector, so one reader serves both.

use vstd::prelude::*;

use crate::bytes::{lossy, lossy_text};
use crate::shell::Finished;
use crate::text::{clip, clipped, concat2, trim, trimmed};

verus! {

/// The collector. Memory is in kB, disk sizes are in bytes and the uptime is in
/// seconds. Load and temperature are left empty: the providers that report them
/// take seconds to answer.
pub const SCRIPT: &'static str = r#"
$ErrorActionPreference = 'SilentlyContinue'

# Processor count straight from the environment: no WMI query needed.
$cores = [int]$env:NUMBER_OF_PROCESSORS
if ($cores -lt 1) { $cores = 1 }

# Memory, in kB, to match /proc/meminfo which the shared parser expects.
$os = Get-CimInstance -ClassName Win32_OperatingSystem
$totalKb = [long]($os.TotalVisibleMemorySize)
$freeKb  = [long]($os.FreePhysicalMemory)

# Uptime in seconds.
$up = 0
try { $up = [long]((Get-Date) - $os.LastBootUpTime).TotalSeconds } catch { }

# CPU load is not collected: the performance-counter provider that reports it is
# the single slowest call available here. Reported empty so the UI shows "—".
"cpu="
"mem_total=$totalKb"
"mem_avail=$freeKb"
"temp="
"uptime=$up"
"cores=$cores"
"DISKS"

# Collected first, then emitted. A query piped straight into ForEach-Object
# truncated the output entirely on a real machine, which silently dropped every
# disk from the payload.
$disks = @(Get-CimInstance -ClassName Win32_LogicalDisk -Filter 'DriveType=3')
foreach ($d in $disks) {
  $size = [long]$d.Size
  if ($size -gt 0) {
    $free = [long]$d.FreeSpace
    "$($d.DeviceID)`t$($d.DeviceID)\`t$size`t$($size - $free)"
  }
}
"#;

/// For how many seconds the collector may run.
pub const COLLECT_SECS: u64 = 20;

/// What the end of the collector means: its output, or an error that says why
/// not. Where it did not end in time, there is nothing to look at.
pub fn collect(done: Option<Result<Finished, String>>) -> (r: Result<String, String>)
    ensures
        match (r, done) {
            (Err(m), None) => m@ == "windows stats timed out"@,
            (Err(m), Some(Err(e))) => m@ == e@,
            (Ok(s), Some(Ok(d))) => d.success && s@ == lossy_text(d.stdout@),
            (Err(m), Some(Ok(d))) => !d.success && m@ == "windows stats failed: "@ + clipped(
                trimmed(lossy_text(d.stderr@)),
                200,
            ),
            _ => false,
        },
{
    match done {
        None => Err(String::from_str("windows stats timed out")),
        Some(Err(e)) => Err(e),
        Some(Ok(d)) => if d.success {
            Ok(lossy(&d.stdout))
        } else {
            let err = lossy(&d.stderr);
            let err = trim(err.as_str());
            let err = clip(err.as_str(), 200);
            Err(concat2("windows stats failed: ", err.as_str()))
        },
    }
}

} // verus!
