//! Conversion of the NT paths that the driver enumeration reports into Win32 paths.

use vstd::prelude::*;
use crate::text::{
    chars_of, chars_eq_ignore_ascii_case, concat_str, eq_ignore_ascii_case, find_char,
    first_index_of, has_prefix, push_char, push_chars_from, starts_with_chars, string_of,
};

verus! {

/// Why a driver could not be hashed; each variant carries a path or a detail.
#[derive(Debug)]
pub enum HashError {
    PathConversionFailed(String),
    FileNotFound(String),
    AccessDenied(String),
    ReadFailed(String),
}

/// The model of a `HashError`: the same variants over character sequences.
pub enum HashFailure {
    PathConversionFailed(Seq<char>),
    FileNotFound(Seq<char>),
    AccessDenied(Seq<char>),
    ReadFailed(Seq<char>),
}

impl View for HashError {
    type V = HashFailure;

    open spec fn view(&self) -> HashFailure {
        match self {
            HashError::PathConversionFailed(p) => HashFailure::PathConversionFailed(p@),
            HashError::FileNotFound(p) => HashFailure::FileNotFound(p@),
            HashError::AccessDenied(p) => HashFailure::AccessDenied(p@),
            HashError::ReadFailed(p) => HashFailure::ReadFailed(p@),
        }
    }
}

/// The text that describes an error to a user.
pub open spec fn failure_message(e: HashFailure) -> Seq<char> {
    match e {
        HashFailure::PathConversionFailed(p) => "path conversion failed: "@ + p,
        HashFailure::FileNotFound(p) => "file not found: "@ + p,
        HashFailure::AccessDenied(p) => "access denied: "@ + p,
        HashFailure::ReadFailed(p) => "read failed: "@ + p,
    }
}

impl HashError {
    /// The text that describes the error to a user.
    pub fn message(&self) -> (r: String)
        ensures
            r@ == failure_message(self@),
    {
        match self {
            HashError::PathConversionFailed(p) => concat_str("path conversion failed: ", p.as_str()),
            HashError::FileNotFound(p) => concat_str("file not found: ", p.as_str()),
            HashError::AccessDenied(p) => concat_str("access denied: ", p.as_str()),
            HashError::ReadFailed(p) => concat_str("read failed: ", p.as_str()),
        }
    }
}

/// A drive letter and the NT device that it stands for (what `QueryDosDeviceW`
/// reports for `X:`).
pub struct DosDevice {
    pub drive: char,
    pub target: String,
}

/// What path conversion needs to know of the machine: the Windows directory, if it
/// could be had, and the drives that have a DOS device, in the order in which they
/// are tried.
pub struct PathContext {
    pub windows_dir: Option<String>,
    pub dos_devices: Vec<DosDevice>,
}

/// The prefix of the paths that name a volume by its NT device.
pub open spec fn harddisk_prefix() -> Seq<char> {
    "\\Device\\HarddiskVolume"@
}

/// The first drive, in order, whose device names `device` without regard to ASCII case.
pub open spec fn first_matching_drive(devices: Seq<DosDevice>, device: Seq<char>) -> Option<char>
    decreases devices.len(),
{
    if devices.len() == 0 {
        None
    } else if eq_ignore_ascii_case(devices[0].target@, device) {
        Some(devices[0].drive)
    } else {
        first_matching_drive(devices.drop_first(), device)
    }
}

/// The Win32 form of a `\Device\HarddiskVolumeN\...` path: the drive whose device is
/// `\Device\HarddiskVolumeN`, a colon, and the rest of the path.
pub open spec fn harddisk_volume_path(p: Seq<char>, devices: Seq<DosDevice>) -> Option<Seq<char>> {
    if !has_prefix(p, harddisk_prefix()) {
        None
    } else {
        let rest = p.skip(harddisk_prefix().len() as int);
        let vol_end = first_index_of(rest, '\\') as int;
        let device = harddisk_prefix() + rest.take(vol_end);
        match first_matching_drive(devices, device) {
            Some(drive) => Some(seq![drive, ':'] + rest.skip(vol_end)),
            None => None,
        }
    }
}

/// Resolves a `\Device\HarddiskVolumeN\...` path against the drives' DOS devices.
pub fn resolve_harddisk_volume(sys_path: &str, dos_devices: &Vec<DosDevice>) -> (r: Option<String>)
    ensures
        match r {
            Some(s) => harddisk_volume_path(sys_path@, dos_devices@) == Some(s@),
            None => harddisk_volume_path(sys_path@, dos_devices@) is None,
        },
{
    let path = chars_of(sys_path);
    let prefix = chars_of("\\Device\\HarddiskVolume");
    if !starts_with_chars(&path, &prefix) {
        return None;
    }
    let mut rest: Vec<char> = Vec::new();
    let mut i = prefix.len();
    while i < path.len()
        invariant
            prefix@.len() <= i <= path@.len(),
            rest@ == path@.subrange(prefix@.len() as int, i as int),
        decreases path@.len() - i,
    {
        rest.push(path[i]);
        i += 1;
        assert(rest@ =~= path@.subrange(prefix@.len() as int, i as int));
    }
    assert(rest@ =~= path@.skip(prefix@.len() as int));
    let vol_end = find_char(&rest, '\\');
    proof {
        crate::text::lemma_first_index_of(rest@, '\\');
    }
    let mut device = string_of(&prefix);
    let mut j: usize = 0;
    while j < vol_end
        invariant
            vol_end <= rest@.len(),
            j <= vol_end,
            device@ == prefix@ + rest@.take(j as int),
        decreases vol_end - j,
    {
        push_char(&mut device, rest[j]);
        j += 1;
        assert(device@ =~= prefix@ + rest@.take(j as int));
    }
    let device_chars = chars_of(device.as_str());
    let mut k: usize = 0;
    assert(dos_devices@.skip(0) =~= dos_devices@);
    while k < dos_devices.len()
        invariant
            k <= dos_devices@.len(),
            prefix@ == harddisk_prefix(),
            has_prefix(path@, prefix@),
            path@ == sys_path@,
            rest@ == path@.skip(prefix@.len() as int),
            vol_end == first_index_of(rest@, '\\'),
            vol_end <= rest@.len(),
            device_chars@ == prefix@ + rest@.take(vol_end as int),
            first_matching_drive(dos_devices@, device_chars@) == first_matching_drive(
                dos_devices@.skip(k as int),
                device_chars@,
            ),
        decreases dos_devices@.len() - k,
    {
        let target = chars_of(dos_devices[k].target.as_str());
        assert(dos_devices@.skip(k as int)[0] == dos_devices@[k as int]);
        assert(dos_devices@.skip(k as int).drop_first() =~= dos_devices@.skip(k + 1));
        if chars_eq_ignore_ascii_case(&target, &device_chars) {
            let mut out = String::new();
            push_char(&mut out, dos_devices[k].drive);
            push_char(&mut out, ':');
            push_chars_from(&mut out, &rest, vol_end);
            assert(out@ =~= seq![dos_devices@[k as int].drive, ':'] + rest@.skip(vol_end as int));
            return Some(out);
        }
        k += 1;
    }
    assert(dos_devices@.skip(k as int).len() == 0);
    None
}

/// The model of path conversion: the Win32 path for an NT path, or why there is none.
pub open spec fn resolve_path(p: Seq<char>, ctx: PathContext) -> Result<Seq<char>, HashFailure> {
    if p.len() == 0 {
        Err(HashFailure::PathConversionFailed("empty path"@))
    } else if has_prefix(p, "\\SystemRoot\\"@) {
        match ctx.windows_dir {
            Some(w) => Ok(w@ + p.skip("\\SystemRoot"@.len() as int)),
            None => Err(HashFailure::PathConversionFailed("failed to get Windows directory"@)),
        }
    } else if has_prefix(p, harddisk_prefix()) {
        match harddisk_volume_path(p, ctx.dos_devices@) {
            Some(r) => Ok(r),
            None => Err(HashFailure::PathConversionFailed("could not resolve volume: "@ + p)),
        }
    } else if has_prefix(p, "\\??\\"@) {
        Ok(p.skip("\\??\\"@.len() as int))
    } else if has_prefix(p, "\\DosDevices\\"@) {
        Ok(p.skip("\\DosDevices\\"@.len() as int))
    } else {
        Ok(p)
    }
}

/// The model of a conversion result.
pub open spec fn resolved_view(r: Result<String, HashError>) -> Result<Seq<char>, HashFailure> {
    match r {
        Ok(s) => Ok(s@),
        Err(e) => Err(e@),
    }
}

/// Converts a path as the driver enumeration reports it into a Win32 path:
/// `\SystemRoot\...` goes below the Windows directory, `\Device\HarddiskVolumeN\...`
/// onto the drive of that volume, `\??\` and `\DosDevices\` are stripped, and any other
/// path is kept as it is.
pub fn resolve_sys_path(sys_path: &str, ctx: &PathContext) -> (r: Result<String, HashError>)
    ensures
        resolved_view(r) == resolve_path(sys_path@, *ctx),
{
    let path = chars_of(sys_path);
    if path.len() == 0 {
        return Err(HashError::PathConversionFailed(String::from_str("empty path")));
    }
    let system_root_dir = chars_of("\\SystemRoot\\");
    if starts_with_chars(&path, &system_root_dir) {
        let system_root = chars_of("\\SystemRoot");
        proof {
            reveal_strlit("\\SystemRoot\\");
            reveal_strlit("\\SystemRoot");
        }
        match &ctx.windows_dir {
            Some(w) => {
                let mut out = String::from_str(w.as_str());
                push_chars_from(&mut out, &path, system_root.len());
                return Ok(out);
            },
            None => {
                return Err(
                    HashError::PathConversionFailed(
                        String::from_str("failed to get Windows directory"),
                    ),
                );
            },
        }
    }
    let harddisk = chars_of("\\Device\\HarddiskVolume");
    if starts_with_chars(&path, &harddisk) {
        match resolve_harddisk_volume(sys_path, &ctx.dos_devices) {
            Some(resolved) => {
                return Ok(resolved);
            },
            None => {
                return Err(
                    HashError::PathConversionFailed(
                        concat_str("could not resolve volume: ", sys_path),
                    ),
                );
            },
        }
    }
    let nt = chars_of("\\??\\");
    if starts_with_chars(&path, &nt) {
        let mut out = String::new();
        push_chars_from(&mut out, &path, nt.len());
        assert(out@ =~= path@.skip(nt@.len() as int));
        return Ok(out);
    }
    let dos = chars_of("\\DosDevices\\");
    if starts_with_chars(&path, &dos) {
        let mut out = String::new();
        push_chars_from(&mut out, &path, dos.len());
        assert(out@ =~= path@.skip(dos@.len() as int));
        return Ok(out);
    }
    Ok(String::from_str(sys_path))
}


/// Law: `\??\` and `\DosDevices\` name the same thing: both prefixes are dropped and the
/// rest of the path is the Win32 path.
pub proof fn law_dos_device_prefixes(q: Seq<char>, ctx: PathContext)
    ensures
        resolve_path("\\??\\"@ + q, ctx) == Ok::<Seq<char>, HashFailure>(q),
        resolve_path("\\DosDevices\\"@ + q, ctx) == Ok::<Seq<char>, HashFailure>(q),
{
    reveal_strlit("\\??\\");
    reveal_strlit("\\DosDevices\\");
    reveal_strlit("\\SystemRoot\\");
    reveal_strlit("\\Device\\HarddiskVolume");
    let a = "\\??\\"@ + q;
    let b = "\\DosDevices\\"@ + q;
    assert(a.subrange(0, 4) =~= "\\??\\"@);
    assert(!has_prefix(a, "\\SystemRoot\\"@)) by {
        assert(a[1] != "\\SystemRoot\\"@[1]);
    }
    assert(!has_prefix(a, harddisk_prefix())) by {
        assert(a[1] != harddisk_prefix()[1]);
    }
    assert(a.skip(4) =~= q);
    assert(b.subrange(0, 12) =~= "\\DosDevices\\"@);
    assert(!has_prefix(b, "\\SystemRoot\\"@)) by {
        assert(b[1] != "\\SystemRoot\\"@[1]);
    }
    assert(!has_prefix(b, harddisk_prefix())) by {
        assert(b[2] != harddisk_prefix()[2]);
    }
    assert(!has_prefix(b, "\\??\\"@)) by {
        assert(b[1] != "\\??\\"@[1]);
    }
    assert(b.skip(12) =~= q);
}

/// Law: a path that does not start with a backslash (a Win32 path such as `C:\...`)
/// is returned as it is.
pub proof fn law_win32_path_unchanged(p: Seq<char>, ctx: PathContext)
    requires
        p.len() > 0,
        p[0] != '\\',
    ensures
        resolve_path(p, ctx) == Ok::<Seq<char>, HashFailure>(p),
{
    reveal_strlit("\\??\\");
    reveal_strlit("\\DosDevices\\");
    reveal_strlit("\\SystemRoot\\");
    reveal_strlit("\\Device\\HarddiskVolume");
    assert(!has_prefix(p, "\\SystemRoot\\"@)) by {
        if has_prefix(p, "\\SystemRoot\\"@) {
            assert(p.subrange(0, 12)[0] == p[0]);
        }
    }
    assert(!has_prefix(p, harddisk_prefix())) by {
        if has_prefix(p, harddisk_prefix()) {
            assert(p.subrange(0, 22)[0] == p[0]);
        }
    }
    assert(!has_prefix(p, "\\??\\"@)) by {
        if has_prefix(p, "\\??\\"@) {
            assert(p.subrange(0, 4)[0] == p[0]);
        }
    }
    assert(!has_prefix(p, "\\DosDevices\\"@)) by {
        if has_prefix(p, "\\DosDevices\\"@) {
            assert(p.subrange(0, 12)[0] == p[0]);
        }
    }
}

/// Law: `\SystemRoot\rest` becomes the Windows directory followed by `\rest`, and
/// fails when the Windows directory is not known.
pub proof fn law_system_root(q: Seq<char>, ctx: PathContext)
    ensures
        resolve_path("\\SystemRoot\\"@ + q, ctx) == match ctx.windows_dir {
            Some(w) => Ok(w@ + "\\"@ + q),
            None => Err(HashFailure::PathConversionFailed("failed to get Windows directory"@)),
        },
{
    reveal_strlit("\\SystemRoot\\");
    reveal_strlit("\\SystemRoot");
    reveal_strlit("\\");
    let a = "\\SystemRoot\\"@ + q;
    assert(a.subrange(0, 12) =~= "\\SystemRoot\\"@);
    assert(a.skip(11) =~= "\\"@ + q);
    match ctx.windows_dir {
        Some(w) => {
            assert(w@ + a.skip(11) =~= w@ + "\\"@ + q);
        },
        None => {},
    }
}

/// Law: `\Device\HarddiskVolumeN\rest`, where `N` holds no backslash, becomes `X:\rest`
/// for the first drive `X` whose device is `\Device\HarddiskVolumeN` (ASCII case aside),
/// and fails when no drive has that device.
pub proof fn law_harddisk_volume(n: Seq<char>, q: Seq<char>, ctx: PathContext)
    requires
        forall|i: int| 0 <= i < n.len() ==> n[i] != '\\',
    ensures
        resolve_path(harddisk_prefix() + n + "\\"@ + q, ctx) == match first_matching_drive(
            ctx.dos_devices@,
            harddisk_prefix() + n,
        ) {
            Some(d) => Ok(seq![d, ':', '\\'] + q),
            None => Err(
                HashFailure::PathConversionFailed(
                    "could not resolve volume: "@ + (harddisk_prefix() + n + "\\"@ + q),
                ),
            ),
        },
{
    reveal_strlit("\\SystemRoot\\");
    reveal_strlit("\\Device\\HarddiskVolume");
    reveal_strlit("\\");
    let p = harddisk_prefix() + n + "\\"@ + q;
    assert(p.len() > 0);
    assert(!has_prefix(p, "\\SystemRoot\\"@)) by {
        assert(p[1] != "\\SystemRoot\\"@[1]);
    }
    assert(p.subrange(0, 22) =~= harddisk_prefix());
    let rest = p.skip(22);
    assert(rest =~= n + ("\\"@ + q));
    crate::text::lemma_first_index_of_unique(rest, '\\', n.len() as int);
    assert(rest.take(n.len() as int) =~= n);
    assert(rest.skip(n.len() as int) =~= seq!['\\'] + q);
    assert(seq![':'] + (seq!['\\'] + q) =~= seq![':', '\\'] + q);
    match first_matching_drive(ctx.dos_devices@, harddisk_prefix() + n) {
        Some(d) => {
            assert(seq![d, ':'] + (seq!['\\'] + q) =~= seq![d, ':', '\\'] + q);
        },
        None => {},
    }
}


/// Law: the drive chosen for a device is the first drive, in order, whose device names
/// it without regard to ASCII case; there is none exactly when no drive's device does.
pub proof fn law_first_matching_drive(devices: Seq<DosDevice>, device: Seq<char>)
    ensures
        first_matching_drive(devices, device) is None <==> forall|q: int|
            0 <= q < devices.len() ==> !eq_ignore_ascii_case((#[trigger] devices[q]).target@, device),
        first_matching_drive(devices, device) is Some ==> exists|q: int|
            0 <= q < devices.len() && eq_ignore_ascii_case(devices[q].target@, device)
                && first_matching_drive(devices, device) == Some(devices[q].drive) && (forall|q2: int|
                0 <= q2 < q ==> !eq_ignore_ascii_case((#[trigger] devices[q2]).target@, device)),
    decreases devices.len(),
{
    if devices.len() > 0 {
        let rest = devices.drop_first();
        law_first_matching_drive(rest, device);
        if !eq_ignore_ascii_case(devices[0].target@, device) {
            if first_matching_drive(rest, device) is Some {
                let q = choose|q: int|
                    0 <= q < rest.len() && eq_ignore_ascii_case(rest[q].target@, device)
                        && first_matching_drive(rest, device) == Some(rest[q].drive) && (forall|q2: int|
                        0 <= q2 < q ==> !eq_ignore_ascii_case((#[trigger] rest[q2]).target@, device));
                assert(devices[q + 1] == rest[q]);
                assert forall|q2: int| 0 <= q2 < q + 1 implies !eq_ignore_ascii_case(
                    (#[trigger] devices[q2]).target@,
                    device,
                ) by {
                    if q2 > 0 {
                        assert(devices[q2] == rest[q2 - 1]);
                    }
                }
            } else {
                assert forall|q: int| 0 <= q < devices.len() implies !eq_ignore_ascii_case(
                    (#[trigger] devices[q]).target@,
                    device,
                ) by {
                    if q > 0 {
                        assert(devices[q] == rest[q - 1]);
                    }
                }
            }
            assert forall|q: int|
                0 <= q < rest.len() && eq_ignore_ascii_case(rest[q].target@, device) implies first_matching_drive(
                devices,
                device,
            ) is Some by {
                assert(devices[q + 1] == rest[q]);
            }
        }
    }
}

/// Law: each error is shown as its kind followed by its path or detail.
pub proof fn law_failure_message(p: Seq<char>)
    ensures
        failure_message(HashFailure::PathConversionFailed(p)) == "path conversion failed: "@ + p,
        failure_message(HashFailure::FileNotFound(p)) == "file not found: "@ + p,
        failure_message(HashFailure::AccessDenied(p)) == "access denied: "@ + p,
        failure_message(HashFailure::ReadFailed(p)) == "read failed: "@ + p,
{
}

} // verus!
