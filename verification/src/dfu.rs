//! DFU flashing for the Daisy Seed: what `dfu-util` says, and what to tell it.
//!
//! Patches and firmware reach the pedal as data over `dfu-util`. The pedal must
//! be in its STM32 bootloader (`0483:df11`) first. Running the tool is the
//! caller's; its output comes in as text and its arguments go out.
use crate::patch::SECTOR_SIZE;
use crate::text::{
    chars_of, decimal, decimal_string, decimals_stand_for_their_number, hex,
    hex_digits_stand_for_their_number, pow_16, push_hex, text_between, value_of_digits,
    value_of_hex_digits,
};
use vstd::prelude::*;
use vstd::string::StringExecFns;

verus! {

/// STM32 system-bootloader USB id, as `dfu-util -l` prints it.
pub const STM_BOOTLOADER_ID: &'static str = "0483:df11";

/// Flash base address mapped by the Daisy bootloader.
pub const FLASH_BASE: u32 = 0x9000_0000;

/// Where firmware is flashed.
pub const FIRMWARE_ADDR: u32 = 0x9004_0000;

/// First patch slot's DFU address.
pub const PATCH_BANK_ADDR: u32 = 0x907F_0000;

/// A device line parsed from `dfu-util -l`.
#[derive(Debug, Clone, PartialEq, Eq)]
pub struct DfuDevice {
    /// `vid:pid`, such as `"0483:df11"`.
    pub id: String,
    /// DFU alt-setting index, if present.
    pub alt: Option<u8>,
    /// Alt-setting name.
    pub name: String,
}

/// The mathematical value of a [`DfuDevice`].
#[verifier::ext_equal]
pub struct DeviceModel {
    pub id: Seq<char>,
    pub alt: Option<u8>,
    pub name: Seq<char>,
}

impl View for DfuDevice {
    type V = DeviceModel;

    open spec fn view(&self) -> DeviceModel {
        DeviceModel { id: self.id@, alt: self.alt, name: self.name@ }
    }
}

/// The values of some devices.
pub open spec fn devices_view(ds: Seq<DfuDevice>) -> Seq<DeviceModel> {
    Seq::new(ds.len(), |i: int| ds[i]@)
}

/// DFU operation failures.
#[derive(Debug, PartialEq, Eq)]
#[non_exhaustive]
pub enum DfuError {
    /// `dfu-util` is not installed.
    NotInstalled,
    /// No device in bootloader mode was found.
    NoDevice,
    /// `dfu-util` ran but failed (its complaint captured).
    Failed(String),
    /// Spawning or I/O failed.
    Io(String),
    /// The patch payload was not a single sector.
    BadPayload,
}

// Text.

/// Unicode white space.
pub open spec fn white(c: char) -> bool {
    ||| '\u{9}' <= c <= '\u{d}'
    ||| c == ' '
    ||| c == '\u{85}'
    ||| c == '\u{a0}'
    ||| c == '\u{1680}'
    ||| '\u{2000}' <= c <= '\u{200a}'
    ||| c == '\u{2028}'
    ||| c == '\u{2029}'
    ||| c == '\u{202f}'
    ||| c == '\u{205f}'
    ||| c == '\u{3000}'
}

/// A text without the white space at its front.
pub open spec fn trimmed_front(s: Seq<char>) -> Seq<char>
    decreases s.len(),
{
    if s.len() > 0 && white(s[0]) {
        trimmed_front(s.drop_first())
    } else {
        s
    }
}

/// A text without the white space at its end.
pub open spec fn trimmed_end(s: Seq<char>) -> Seq<char>
    decreases s.len(),
{
    if s.len() > 0 && white(s.last()) {
        trimmed_end(s.drop_last())
    } else {
        s
    }
}

/// A text without the white space around it.
pub open spec fn trimmed(s: Seq<char>) -> Seq<char> {
    trimmed_end(trimmed_front(s))
}

/// Whether `needle` stands in `s` at `i`.
pub open spec fn stands_at(s: Seq<char>, needle: Seq<char>, i: int) -> bool {
    0 <= i && i + needle.len() <= s.len() && s.subrange(i, i + needle.len()) == needle
}

/// The first place at or behind `i` where `needle` stands.
pub open spec fn found_from(s: Seq<char>, needle: Seq<char>, i: int) -> Option<int>
    decreases s.len() - i,
{
    if i < 0 || i + needle.len() > s.len() {
        None
    } else if stands_at(s, needle, i) {
        Some(i)
    } else if i == s.len() {
        None
    } else {
        found_from(s, needle, i + 1)
    }
}

/// The text between the first `start` and the next `end`.
pub open spec fn text_within(s: Seq<char>, start: Seq<char>, end: Seq<char>) -> Option<Seq<char>> {
    match found_from(s, start, 0) {
        None => None,
        Some(i) => match found_from(s, end, i + start.len()) {
            None => None,
            Some(j) => Some(s.subrange(i + start.len(), j)),
        },
    }
}

/// The first comma or blank at or behind `i`, or the end.
pub open spec fn value_end(s: Seq<char>, i: int) -> int
    decreases s.len() - i,
{
    if i < 0 || i >= s.len() || s[i] == ',' || s[i] == ' ' {
        i
    } else {
        value_end(s, i + 1)
    }
}

/// The value behind the first `key`, up to a comma or a blank.
pub open spec fn value_of(s: Seq<char>, key: Seq<char>) -> Option<Seq<char>> {
    match found_from(s, key, 0) {
        None => None,
        Some(i) => Some(s.subrange(i + key.len(), value_end(s, i + key.len()))),
    }
}

/// A decimal digit.
pub open spec fn is_digit(c: char) -> bool {
    '0' <= c <= '9'
}

/// The number that digits stand for.
pub open spec fn number(s: Seq<char>) -> nat
    decreases s.len(),
{
    if s.len() == 0 {
        0
    } else {
        10 * number(s.drop_last()) + (s.last() as nat - '0' as nat) as nat
    }
}

/// A text without one plus sign in front.
pub open spec fn unsigned_part(s: Seq<char>) -> Seq<char> {
    if s.len() > 0 && s[0] == '+' {
        s.drop_first()
    } else {
        s
    }
}

/// The byte that a text stands for in decimal, if any.
pub open spec fn parsed_u8(s: Seq<char>) -> Option<u8> {
    let d = unsigned_part(s);
    if d.len() > 0 && (forall|i: int| 0 <= i < d.len() ==> is_digit(#[trigger] d[i])) && number(d)
        <= 255 {
        Some(number(d) as u8)
    } else {
        None
    }
}

/// The device that a line of the listing describes, if any.
pub open spec fn device_of(line: Seq<char>) -> Option<DeviceModel> {
    let l = trimmed(line);
    if !stands_at(l, "Found DFU:"@, 0) && !stands_at(l, "Found Runtime:"@, 0) {
        None
    } else {
        match text_within(l, "["@, "]"@) {
            None => None,
            Some(id) => Some(
                DeviceModel {
                    id,
                    alt: match value_of(l, "alt="@) {
                        Some(v) => parsed_u8(v),
                        None => None,
                    },
                    name: match text_within(l, "name=\""@, "\""@) {
                        Some(name) => name,
                        None => Seq::empty(),
                    },
                },
            ),
        }
    }
}

/// Where the first line of a text that starts at `i` ends.
pub open spec fn line_end(s: Seq<char>, i: int) -> int
    decreases s.len() - i,
{
    if i < 0 || i >= s.len() || s[i] == '\n' {
        i
    } else {
        line_end(s, i + 1)
    }
}

/// The devices that the lines of a listing describe from `i` on, in order.
pub open spec fn devices_from(s: Seq<char>, i: int) -> Seq<DeviceModel>
    decreases s.len() + 1 - i,
{
    if i < 0 || i >= s.len() {
        Seq::empty()
    } else {
        proof {
            line_end_bounds(s, i);
        }
        let end = line_end(s, i);
        let rest = devices_from(s, end + 1);
        match device_of(s.subrange(i, end)) {
            Some(d) => seq![d] + rest,
            None => rest,
        }
    }
}

fn is_white(c: char) -> (r: bool)
    ensures
        r == white(c),
{
    ('\u{9}' <= c && c <= '\u{d}') || c == ' ' || c == '\u{85}' || c == '\u{a0}' || c == '\u{1680}'
        || ('\u{2000}' <= c && c <= '\u{200a}') || c == '\u{2028}' || c == '\u{2029}' || c
        == '\u{202f}' || c == '\u{205f}' || c == '\u{3000}'
}

/// The characters from `from` to `to` without the white space around them.
fn trim(chars: &Vec<char>, from: usize, to: usize) -> (r: Vec<char>)
    requires
        from <= to <= chars@.len(),
    ensures
        r@ == trimmed(chars@.subrange(from as int, to as int)),
{
    let ghost all = chars@.subrange(from as int, to as int);
    let mut a: usize = from;
    while a < to && is_white(chars[a])
        invariant
            from <= a <= to <= chars@.len(),
            trimmed_front(all) == trimmed_front(chars@.subrange(a as int, to as int)),
        decreases to - a,
    {
        let ghost now = chars@.subrange(a as int, to as int);
        assert(now.drop_first() =~= chars@.subrange(a as int + 1, to as int));
        a = a + 1;
    }
    let mut b: usize = to;
    let ghost front = chars@.subrange(a as int, to as int);
    while b > a && is_white(chars[b - 1])
        invariant
            a <= b <= to <= chars@.len(),
            trimmed_end(front) == trimmed_end(chars@.subrange(a as int, b as int)),
        decreases b - a,
    {
        let ghost now = chars@.subrange(a as int, b as int);
        assert(now.drop_last() =~= chars@.subrange(a as int, b as int - 1));
        b = b - 1;
    }
    let mut r: Vec<char> = Vec::new();
    let mut i: usize = a;
    while i < b
        invariant
            a <= i <= b <= chars@.len(),
            r@ == chars@.subrange(a as int, i as int),
        decreases b - i,
    {
        r.push(chars[i]);
        i = i + 1;
        assert(r@ =~= chars@.subrange(a as int, i as int));
    }
    r
}

/// Whether `needle` stands in `s` at `i`.
fn has_at(s: &Vec<char>, needle: &Vec<char>, i: usize) -> (r: bool)
    requires
        i <= s@.len(),
    ensures
        r == stands_at(s@, needle@, i as int),
{
    if needle.len() > s.len() - i {
        return false;
    }
    let ghost part = s@.subrange(i as int, i + needle@.len());
    let mut k: usize = 0;
    while k < needle.len()
        invariant
            k <= needle@.len(),
            i + needle@.len() <= s@.len() <= usize::MAX,
            part == s@.subrange(i as int, i + needle@.len()),
            forall|j: int| 0 <= j < k ==> part[j] == needle@[j],
        decreases needle@.len() - k,
    {
        if s[i + k] != needle[k] {
            assert(part[k as int] != needle@[k as int]);
            return false;
        }
        k = k + 1;
    }
    assert(part =~= needle@);
    true
}

/// The first place at or behind `from` where `needle` stands.
fn find(s: &Vec<char>, needle: &Vec<char>, from: usize) -> (r: Option<usize>)
    requires
        from <= s@.len(),
    ensures
        found_from(s@, needle@, from as int) == (match r {
            Some(i) => Some(i as int),
            None => None,
        }),
        r matches Some(i) ==> from <= i && i + needle@.len() <= s@.len(),
{
    let mut i: usize = from;
    while needle.len() <= s.len() - i
        invariant
            from <= i <= s@.len(),
            found_from(s@, needle@, from as int) == found_from(s@, needle@, i as int),
        decreases s@.len() - i,
    {
        if has_at(s, needle, i) {
            return Some(i);
        }
        if i == s.len() {
            return None;
        }
        i = i + 1;
    }
    None
}

/// The text between the first `start` and the next `end`.
fn between(s: &Vec<char>, start: &str, end: &str) -> (r: Option<String>)
    ensures
        text_within(s@, start@, end@) == (match r {
            Some(t) => Some(t@),
            None => None,
        }),
{
    let start = chars_of(start);
    let end = chars_of(end);
    match find(s, &start, 0) {
        None => None,
        Some(i) => {
            assert(i + start@.len() <= s.len());
            let from: usize = i + start.len();
            match find(s, &end, from) {
                None => None,
                Some(j) => Some(text_between(s, from, j)),
            }
        },
    }
}

/// The value behind the first `key`, up to a comma or a blank.
fn field(s: &Vec<char>, key: &str) -> (r: Option<Vec<char>>)
    ensures
        value_of(s@, key@) == (match r {
            Some(t) => Some(t@),
            None => None,
        }),
{
    let key = chars_of(key);
    match find(s, &key, 0) {
        None => None,
        Some(i) => {
            assert(i + key@.len() <= s.len());
            let from: usize = i + key.len();
            let mut end: usize = from;
            let mut v: Vec<char> = Vec::new();
            while end < s.len() && s[end] != ',' && s[end] != ' '
                invariant
                    from <= end <= s@.len(),
                    v@ == s@.subrange(from as int, end as int),
                    value_end(s@, from as int) == value_end(s@, end as int),
                decreases s@.len() - end,
            {
                v.push(s[end]);
                end = end + 1;
                assert(v@ =~= s@.subrange(from as int, end as int));
            }
            Some(v)
        },
    }
}

/// The byte that a text stands for in decimal, if any.
fn parse_u8(s: &Vec<char>) -> (r: Option<u8>)
    ensures
        r == parsed_u8(s@),
{
    let from: usize = if s.len() > 0 && s[0] == '+' {
        1
    } else {
        0
    };
    let ghost d = unsigned_part(s@);
    assert(d =~= s@.skip(from as int));
    if from == s.len() {
        return None;
    }
    let mut value: u32 = 0;
    let mut over: bool = false;
    let mut i: usize = from;
    while i < s.len()
        invariant
            from <= i <= s@.len(),
            d == s@.skip(from as int),
            d == unsigned_part(s@),
            forall|j: int| 0 <= j < i - from ==> is_digit(#[trigger] d[j]),
            over ==> number(d.take(i - from)) > 255,
            !over ==> value == number(d.take(i - from)) && value <= 255,
        decreases s@.len() - i,
    {
        let c = s[i];
        assert(d[i - from] == c);
        if c < '0' || c > '9' {
            assert(!is_digit(d[i - from]));
            return None;
        }
        assert(d.take(i - from + 1).drop_last() =~= d.take(i - from));
        if !over {
            value = 10 * value + (c as u32 - '0' as u32);
            if value > 255 {
                over = true;
            }
        }
        i = i + 1;
    }
    assert(d.take(i - from) =~= d);
    if over {
        None
    } else {
        Some(value as u8)
    }
}

/// The device that a line of the listing describes, if any.
fn parse_line(chars: &Vec<char>, from: usize, to: usize) -> (r: Option<DfuDevice>)
    requires
        from <= to <= chars@.len(),
    ensures
        device_of(chars@.subrange(from as int, to as int)) == (match r {
            Some(d) => Some(d@),
            None => None,
        }),
{
    let line = trim(chars, from, to);
    let dfu = chars_of("Found DFU:");
    let runtime = chars_of("Found Runtime:");
    if !has_at(&line, &dfu, 0) && !has_at(&line, &runtime, 0) {
        return None;
    }
    match between(&line, "[", "]") {
        None => None,
        Some(id) => {
            let alt = match field(&line, "alt=") {
                Some(v) => parse_u8(&v),
                None => None,
            };
            let name = match between(&line, "name=\"", "\"") {
                Some(name) => name,
                None => String::new(),
            };
            Some(DfuDevice { id, alt, name })
        },
    }
}

/// The end of a line is at or behind its start.
pub proof fn line_end_bounds(s: Seq<char>, i: int)
    requires
        0 <= i <= s.len(),
    ensures
        i <= line_end(s, i) <= s.len(),
    decreases s.len() - i,
{
    if i < s.len() && s[i] != '\n' {
        line_end_bounds(s, i + 1);
    }
}

/// Parse the output of `dfu-util -l` into the devices that it lists.
///
/// Lines look like:
/// ```text
/// Found DFU: [0483:df11] ver=2200, devnum=12, alt=0, name="@Internal Flash"
/// ```
pub fn parse_dfu_list(output: &str) -> (devices: Vec<DfuDevice>)
    ensures
        devices_view(devices@) == devices_from(output@, 0),
{
    let chars = chars_of(output);
    let mut devices: Vec<DfuDevice> = Vec::new();
    let mut i: usize = 0;
    assert(devices_view(devices@) =~= Seq::empty());
    assert(devices_from(output@, 0) =~= Seq::empty() + devices_from(output@, 0));
    while i < chars.len()
        invariant
            i <= chars@.len(),
            chars@ == output@,
            devices_from(output@, 0) == devices_view(devices@) + devices_from(output@, i as int),
        decreases chars@.len() - i,
    {
        let mut end: usize = i;
        while end < chars.len() && chars[end] != '\n'
            invariant
                i <= end <= chars@.len(),
                line_end(chars@, i as int) == line_end(chars@, end as int),
            decreases chars@.len() - end,
        {
            end = end + 1;
        }
        let ghost before = devices_view(devices@);
        let ghost rest = devices_from(output@, end as int + 1);
        match parse_line(&chars, i, end) {
            Some(d) => {
                let ghost model = d@;
                devices.push(d);
                assert(devices_view(devices@) =~= before.push(model));
                assert(before + (seq![model] + rest) =~= before.push(model) + rest);
            },
            None => {},
        }
        if end == chars.len() {
            i = end;
            assert(rest =~= Seq::empty());
            assert(devices_from(output@, i as int) =~= Seq::empty());
        } else {
            i = end + 1;
        }
    }
    assert(devices_from(output@, i as int) =~= Seq::empty());
    assert(devices_view(devices@) =~= devices_from(output@, 0));
    devices
}

impl DfuDevice {
    /// Whether this is the STM32 system bootloader.
    pub fn is_bootloader(&self) -> (r: bool)
        ensures
            r == (self@.id == STM_BOOTLOADER_ID@),
    {
        let id = STM_BOOTLOADER_ID.to_owned();
        self.id == id
    }
}

/// Whether any of the devices is the STM bootloader.
pub open spec fn has_bootloader(ds: Seq<DeviceModel>) -> bool {
    exists|i: int| 0 <= i < ds.len() && (#[trigger] ds[i]).id == STM_BOOTLOADER_ID@
}

/// Whether any listed device is the STM bootloader.
pub fn bootloader_present(devices: &[DfuDevice]) -> (r: bool)
    ensures
        r == has_bootloader(devices_view(devices@)),
{
    let ghost ds = devices_view(devices@);
    let mut i: usize = 0;
    while i < devices.len()
        invariant
            i <= devices@.len(),
            ds == devices_view(devices@),
            forall|j: int| 0 <= j < i ==> (#[trigger] ds[j]).id != STM_BOOTLOADER_ID@,
        decreases devices@.len() - i,
    {
        assert(ds[i as int] == devices@[i as int]@);
        if devices[i].is_bootloader() {
            return true;
        }
        i = i + 1;
    }
    false
}

/// Whether a listing, where there is one, shows a pedal in bootloader mode.
pub open spec fn shows_bootloader(listing: Option<Seq<char>>) -> bool {
    listing matches Some(text) && has_bootloader(devices_from(text, 0))
}

/// The text of a listing, where there is one.
pub open spec fn listing_view(listing: Option<&str>) -> Option<Seq<char>> {
    match listing {
        Some(text) => Some(text@),
        None => None,
    }
}

/// Whether a pedal is in bootloader mode, by the output of `dfu-util -l`, or
/// `None` where the tool could not be run.
pub fn pedal_in_bootloader(listing: Option<&str>) -> (r: bool)
    ensures
        r == shows_bootloader(listing_view(listing)),
{
    match listing {
        Some(text) => {
            let devices = parse_dfu_list(text);
            bootloader_present(devices.as_slice())
        },
        None => false,
    }
}

/// DFU address for patch slot `n`.
pub fn patch_slot_addr(slot: u8) -> (addr: u32)
    ensures
        addr == PATCH_BANK_ADDR + slot * SECTOR_SIZE,
        addr == 0x907F_0000 + 4096 * slot,
{
    PATCH_BANK_ADDR + slot as u32 * SECTOR_SIZE as u32
}

/// The texts of the arguments for a download.
pub open spec fn download_texts(alt: nat, address: nat, path: Seq<char>) -> Seq<Seq<char>> {
    seq![
        "-a"@,
        decimal(alt),
        "-s"@,
        "0x"@ + hex(address, 8, true) + ":leave"@,
        "-D"@,
        path,
    ]
}

/// The texts of some strings.
pub open spec fn arg_texts(args: Seq<String>) -> Seq<Seq<char>> {
    Seq::new(args.len(), |i: int| args[i]@)
}

/// Build the `dfu-util` argument vector for a DfuSe download to `address`.
///
/// `:leave` makes the device reset and run the new image after flashing.
pub fn download_args(alt: u8, address: u32, path: &str) -> (args: Vec<String>)
    ensures
        arg_texts(args@) == download_texts(alt as nat, address as nat, path@),
        args@.len() == 6,
        args@[5]@ == path@,
{
    let mut at = "0x".to_owned();
    push_hex(&mut at, address, 8, true);
    at.append(":leave");
    let mut args: Vec<String> = Vec::new();
    args.push("-a".to_owned());
    args.push(decimal_string(alt as u128));
    args.push("-s".to_owned());
    args.push(at);
    args.push("-D".to_owned());
    args.push(path.to_owned());
    assert(args@[5]@ == path@);
    assert(arg_texts(args@) =~= download_texts(alt as nat, address as nat, path@));
    args
}

/// What to run in order to flash one patch sector to a slot.
///
/// `payload` must be exactly one sector, `listing` is the output of
/// `dfu-util -l` (or `None`), and `path` is where the payload is staged.
pub fn flash_patch(slot: u8, payload: &[u8], listing: Option<&str>, path: &str) -> (r: Result<
    Vec<String>,
    DfuError,
>)
    ensures
        match r {
            Ok(args) => {
                &&& payload@.len() == SECTOR_SIZE
                &&& shows_bootloader(listing_view(listing))
                &&& arg_texts(args@) == download_texts(
                    0,
                    (PATCH_BANK_ADDR + slot * SECTOR_SIZE) as nat,
                    path@,
                )
            },
            Err(e) => if payload@.len() != SECTOR_SIZE {
                e == DfuError::BadPayload
            } else {
                e == DfuError::NoDevice && !shows_bootloader(listing_view(listing))
            },
        },
{
    if payload.len() != SECTOR_SIZE {
        return Err(DfuError::BadPayload);
    }
    if !pedal_in_bootloader(listing) {
        return Err(DfuError::NoDevice);
    }
    Ok(download_args(0, patch_slot_addr(slot), path))
}

/// What to run in order to flash a firmware image file at [`FIRMWARE_ADDR`].
pub fn flash_firmware(bin_path: &str, listing: Option<&str>) -> (r: Result<Vec<String>, DfuError>)
    ensures
        match r {
            Ok(args) => {
                &&& shows_bootloader(listing_view(listing))
                &&& arg_texts(args@) == download_texts(0, FIRMWARE_ADDR as nat, bin_path@)
            },
            Err(e) => e == DfuError::NoDevice && !shows_bootloader(listing_view(listing)),
        },
{
    if !pedal_in_bootloader(listing) {
        return Err(DfuError::NoDevice);
    }
    Ok(download_args(0, FIRMWARE_ADDR, bin_path))
}

/// What a finished run of `dfu-util` means: on failure, its complaint without
/// the white space around it.
pub fn run_outcome(success: bool, stderr: &str) -> (r: Result<(), DfuError>)
    ensures
        match r {
            Ok(()) => success,
            Err(e) => !success && (e matches DfuError::Failed(text) && text@ == trimmed(stderr@)),
        },
{
    if success {
        Ok(())
    } else {
        let chars = chars_of(stderr);
        assert(chars@.subrange(0, chars@.len() as int) =~= chars@);
        let kept = trim(&chars, 0, chars.len());
        assert(kept@.subrange(0, kept@.len() as int) =~= kept@);
        Err(DfuError::Failed(text_between(&kept, 0, kept.len())))
    }
}

/// What a failed attempt to start `dfu-util` means.
pub fn spawn_error(not_found: bool, message: String) -> (e: DfuError)
    ensures
        e == (if not_found {
            DfuError::NotInstalled
        } else {
            DfuError::Io(message)
        }),
{
    if not_found {
        DfuError::NotInstalled
    } else {
        DfuError::Io(message)
    }
}

/// The message for a DFU failure.
pub open spec fn dfu_message(e: DfuError) -> Seq<char> {
    match e {
        DfuError::NotInstalled =>
            "dfu-util not found \u{2014} install it (e.g. `sudo dnf install dfu-util`)"@,
        DfuError::NoDevice =>
            "no pedal in bootloader mode \u{2014} hold both footswitches ~1.5 s (or press BOOT+RESET), then retry"@,
        DfuError::Failed(text) => "dfu-util failed: "@ + text@,
        DfuError::Io(text) => "could not run dfu-util: "@ + text@,
        DfuError::BadPayload => "patch payload must be exactly one 4096-byte sector"@,
    }
}

impl DfuError {
    /// An actionable message.
    pub fn message(&self) -> (m: String)
        ensures
            m@ == dfu_message(*self),
    {
        match self {
            DfuError::NotInstalled => {
                "dfu-util not found \u{2014} install it (e.g. `sudo dnf install dfu-util`)".to_owned()
            },
            DfuError::NoDevice => {
                "no pedal in bootloader mode \u{2014} hold both footswitches ~1.5 s (or press BOOT+RESET), then retry".to_owned()
            },
            DfuError::Failed(text) => {
                let mut m = "dfu-util failed: ".to_owned();
                m.append(text.as_str());
                m
            },
            DfuError::Io(text) => {
                let mut m = "could not run dfu-util: ".to_owned();
                m.append(text.as_str());
                m
            },
            DfuError::BadPayload => {
                "patch payload must be exactly one 4096-byte sector".to_owned()
            },
        }
    }
}

/// Patch slots do not overlap, and every slot lies behind the firmware.
pub proof fn patch_slots_are_apart(a: u8, b: u8)
    requires
        a < b,
    ensures
        PATCH_BANK_ADDR + a * SECTOR_SIZE + SECTOR_SIZE <= PATCH_BANK_ADDR + b * SECTOR_SIZE,
        FIRMWARE_ADDR < PATCH_BANK_ADDR + a * SECTOR_SIZE,
        PATCH_BANK_ADDR + b * SECTOR_SIZE + SECTOR_SIZE <= u32::MAX,
{
}

/// What is found is the first place where the text stands, and where none is found
/// it stands nowhere.
pub proof fn the_first_place_is_found(s: Seq<char>, needle: Seq<char>, from: int)
    requires
        0 <= from <= s.len(),
    ensures
        found_from(s, needle, from) matches Some(i) ==> {
            &&& from <= i
            &&& i + needle.len() <= s.len()
            &&& s.subrange(i, i + needle.len()) == needle
            &&& forall|j: int|
                from <= j < i ==> #[trigger] s.subrange(j, j + needle.len()) != needle
        },
        found_from(s, needle, from) is None ==> forall|j: int|
            from <= j && j + needle.len() <= s.len() ==> #[trigger] s.subrange(j, j + needle.len())
                != needle,
    decreases s.len() - from,
{
    if from + needle.len() <= s.len() && !stands_at(s, needle, from) && from < s.len() {
        the_first_place_is_found(s, needle, from + 1);
    }
}

/// What stands somewhere, and nowhere before it, is found there.
proof fn found_there(s: Seq<char>, needle: Seq<char>, from: int, at: int)
    requires
        0 <= from <= at,
        at + needle.len() <= s.len(),
        s.subrange(at, at + needle.len()) == needle,
        forall|j: int| from <= j < at ==> #[trigger] s.subrange(j, j + needle.len()) != needle,
    ensures
        found_from(s, needle, from) == Some(at),
{
    the_first_place_is_found(s, needle, from);
    assert(s.subrange(at, at + needle.len()) == needle);
}

/// Trimming leaves a part of the text that neither begins nor ends with white
/// space, and takes white space only. Returned is where that part begins.
pub proof fn trimming_takes_white_space(s: Seq<char>) -> (at: int)
    ensures
        0 <= at,
        at + trimmed(s).len() <= s.len(),
        trimmed(s) == s.subrange(at, at + trimmed(s).len()),
        trimmed(s).len() > 0 ==> !white(trimmed(s)[0]) && !white(trimmed(s).last()),
        forall|i: int|
            0 <= i < s.len() && !(at <= i < at + trimmed(s).len()) ==> white(#[trigger] s[i]),
{
    let front = trimmed_front(s);
    let t = trimmed(s);
    let at = s.len() - front.len();
    trimming_the_front(s);
    trimming_the_end(front);
    assert(t =~= s.subrange(at, at + t.len()));
    assert forall|i: int| 0 <= i < s.len() && !(at <= i < at + t.len()) implies white(
        #[trigger] s[i],
    ) by {
        if i >= at {
            assert(front[i - at] == s[i]);
        }
    }
    if t.len() > 0 {
        assert(t[0] == front[0]);
    }
    at
}

proof fn trimming_the_front(s: Seq<char>)
    ensures
        trimmed_front(s).len() <= s.len(),
        trimmed_front(s) == s.skip(s.len() - trimmed_front(s).len()),
        trimmed_front(s).len() > 0 ==> !white(trimmed_front(s)[0]),
        forall|i: int| 0 <= i < s.len() - trimmed_front(s).len() ==> white(#[trigger] s[i]),
    decreases s.len(),
{
    if s.len() > 0 && white(s[0]) {
        let rest = s.drop_first();
        trimming_the_front(rest);
        let t = trimmed_front(s);
        assert(rest.skip(rest.len() - t.len()) =~= s.skip(s.len() - t.len()));
        assert forall|i: int| 0 <= i < s.len() - t.len() implies white(#[trigger] s[i]) by {
            if i > 0 {
                assert(rest[i - 1] == s[i]);
            }
        }
    } else {
        assert(s.skip(0) =~= s);
    }
}

proof fn trimming_the_end(s: Seq<char>)
    ensures
        trimmed_end(s).len() <= s.len(),
        trimmed_end(s) == s.take(trimmed_end(s).len() as int),
        trimmed_end(s).len() > 0 ==> !white(trimmed_end(s).last()),
        forall|i: int| trimmed_end(s).len() <= i < s.len() ==> white(#[trigger] s[i]),
    decreases s.len(),
{
    if s.len() > 0 && white(s.last()) {
        let front = s.drop_last();
        trimming_the_end(front);
        let t = trimmed_end(s);
        assert(front.take(t.len() as int) =~= s.take(t.len() as int));
        assert forall|i: int| t.len() <= i < s.len() implies white(#[trigger] s[i]) by {
            if i < s.len() - 1 {
                assert(front[i] == s[i]);
            }
        }
    } else {
        assert(s.take(s.len() as int) =~= s);
    }
}

/// A line that announces a device describes it: what stands between the first
/// bracket and the next closing one is its id. A line that announces none, or has
/// no id, describes none.
pub proof fn a_line_describes_its_device(line: Seq<char>, a: int, b: int)
    requires
        line.len() > 0,
        !white(line[0]),
        !white(line.last()),
    ensures
        !stands_at(line, "Found DFU:"@, 0) && !stands_at(line, "Found Runtime:"@, 0) ==> device_of(
            line,
        ) is None,
        (forall|i: int| 0 <= i < line.len() ==> #[trigger] line[i] != '[') ==> device_of(
            line,
        ) is None,
        (stands_at(line, "Found DFU:"@, 0) || stands_at(line, "Found Runtime:"@, 0)) && 0 <= a < b
            < line.len() && line[a] == '[' && line[b] == ']' && (forall|i: int|
            0 <= i < a ==> #[trigger] line[i] != '[') && (forall|i: int|
            a < i < b ==> #[trigger] line[i] != ']') ==> (device_of(line) matches Some(d) && d.id
            == line.subrange(a + 1, b)),
{
    reveal_strlit("[");
    reveal_strlit("]");
    trimmed_is_itself(line);
    the_first_place_is_found(line, "["@, 0);
    if forall|i: int| 0 <= i < line.len() ==> #[trigger] line[i] != '[' {
        if let Some(i) = found_from(line, "["@, 0) {
            assert(line.subrange(i, i + 1)[0] == "["@[0]);
        }
    }
    if 0 <= a < b < line.len() && line[a] == '[' && line[b] == ']' && (forall|i: int|
        0 <= i < a ==> #[trigger] line[i] != '[') && (forall|i: int|
        a < i < b ==> #[trigger] line[i] != ']') {
        single_is_found(line, '[', "["@, 0, a);
        single_is_found(line, ']', "]"@, a + 1, b);
    }
}

/// A single character that stands somewhere, and not before, is found there.
proof fn single_is_found(s: Seq<char>, c: char, needle: Seq<char>, from: int, at: int)
    requires
        needle.len() == 1,
        needle[0] == c,
        0 <= from <= at < s.len(),
        s[at] == c,
        forall|i: int| from <= i < at ==> #[trigger] s[i] != c,
    ensures
        found_from(s, needle, from) == Some(at),
{
    assert(s.subrange(at, at + 1) =~= needle);
    assert forall|j: int| from <= j < at implies #[trigger] s.subrange(j, j + needle.len())
        != needle by {
        assert(s.subrange(j, j + 1)[0] == s[j]);
    }
    found_there(s, needle, from, at);
}

proof fn trimmed_is_itself(s: Seq<char>)
    requires
        s.len() > 0,
        !white(s[0]),
        !white(s.last()),
    ensures
        trimmed(s) == s,
{
}

/// The alternate setting of a device is the number behind `alt=`, and its name is
/// what stands in quotes behind `name=`.
pub proof fn a_line_tells_setting_and_name(line: Seq<char>, n: u8, x: int, y: int, a: int, b: int)
    requires
        line.len() > 0,
        !white(line[0]),
        !white(line.last()),
        device_of(line) is Some,
        // The setting: behind the first key, up to a comma or a blank.
        0 <= x,
        x + 4 <= y <= line.len(),
        line.subrange(x, x + 4) == "alt="@,
        forall|j: int| 0 <= j < x ==> #[trigger] line.subrange(j, j + 4) != "alt="@,
        line.subrange(x + 4, y) == decimal(n as nat),
        y < line.len() ==> line[y] == ',' || line[y] == ' ',
        // The name: behind the first key, up to the next quote.
        0 <= a,
        a + 6 <= b < line.len(),
        line.subrange(a, a + 6) == "name=\""@,
        forall|j: int| 0 <= j < a ==> #[trigger] line.subrange(j, j + 6) != "name=\""@,
        line[b] == '"',
        forall|i: int| a + 6 <= i < b ==> #[trigger] line[i] != '"',
    ensures
        device_of(line).unwrap().alt == Some(n),
        device_of(line).unwrap().name == line.subrange(a + 6, b),
{
    reveal_strlit("alt=");
    reveal_strlit("name=\"");
    reveal_strlit("\"");
    trimmed_is_itself(line);
    found_there(line, "alt="@, 0, x);
    decimals_stand_for_their_number(n as nat);
    let v = line.subrange(x + 4, y);
    assert forall|i: int| x + 4 <= i < y implies line[i] != ',' && line[i] != ' ' by {
        assert(v[i - x - 4] == line[i]);
    }
    value_ends_at(line, x + 4, y);
    assert(value_of(line, "alt="@) == Some(v));
    assert(unsigned_part(v) == v) by {
        assert('0' <= v[0] <= '9');
    }
    number_of_digits(v);
    assert(forall|i: int| 0 <= i < v.len() ==> is_digit(#[trigger] v[i]));
    assert(parsed_u8(v) == Some(n));
    found_there(line, "name=\""@, 0, a);
    single_is_found(line, '"', "\""@, a + 6, b);
}

proof fn value_ends_at(s: Seq<char>, from: int, end: int)
    requires
        0 <= from <= end <= s.len(),
        forall|i: int| from <= i < end ==> s[i] != ',' && s[i] != ' ',
        end < s.len() ==> s[end] == ',' || s[end] == ' ',
    ensures
        value_end(s, from) == end,
    decreases end - from,
{
    if from < end {
        value_ends_at(s, from + 1, end);
    }
}

/// Digits stand for the same number whichever way they are read.
proof fn number_of_digits(s: Seq<char>)
    requires
        forall|i: int| 0 <= i < s.len() ==> '0' <= #[trigger] s[i] <= '9',
    ensures
        number(s) == value_of_digits(s),
    decreases s.len(),
{
    if s.len() > 0 {
        let front = s.drop_last();
        assert forall|i: int| 0 <= i < front.len() implies '0' <= #[trigger] front[i] <= '9' by {
            assert(front[i] == s[i]);
        }
        assert('0' <= s[s.len() - 1] <= '9');
        number_of_digits(front);
    }
}

/// A listing is read line by line: a line in front adds the device that it
/// describes, if any, in front of those of the other lines.
pub proof fn listings_are_read_line_by_line(line: Seq<char>, rest: Seq<char>)
    requires
        forall|i: int| 0 <= i < line.len() ==> #[trigger] line[i] != '\n',
    ensures
        devices_from(line.push('\n') + rest, 0) == (match device_of(line) {
            Some(d) => seq![d],
            None => Seq::empty(),
        }) + devices_from(rest, 0),
        line.len() > 0 ==> devices_from(line, 0) == (match device_of(line) {
            Some(d) => seq![d],
            None => Seq::empty(),
        }),
        devices_from(Seq::empty(), 0) == Seq::<DeviceModel>::empty(),
{
    let all = line.push('\n') + rest;
    let n = line.len() as int;
    line_ends_at(all, 0, n);
    assert(all.subrange(0, n) =~= line);
    shifted_devices(line.push('\n'), rest, 0);
    assert(devices_from(all, n + 1) == devices_from(rest, 0));
    let d = match device_of(line) {
        Some(d) => seq![d],
        None => Seq::empty(),
    };
    assert(devices_from(all, 0) =~= d + devices_from(rest, 0));
    if line.len() > 0 {
        line_ends_at(line, 0, n);
        assert(line.subrange(0, n) =~= line);
        assert(devices_from(line, n + 1) =~= Seq::empty());
        assert(devices_from(line, 0) =~= d);
    }
}

proof fn line_ends_at(s: Seq<char>, from: int, end: int)
    requires
        0 <= from <= end <= s.len(),
        forall|i: int| from <= i < end ==> #[trigger] s[i] != '\n',
        end < s.len() ==> s[end] == '\n',
    ensures
        line_end(s, from) == end,
    decreases end - from,
{
    if from < end {
        line_ends_at(s, from + 1, end);
    }
}

proof fn shifted_ends(front: Seq<char>, rest: Seq<char>, i: int)
    requires
        0 <= i <= rest.len(),
    ensures
        line_end(front + rest, front.len() + i) == front.len() + line_end(rest, i),
    decreases rest.len() - i,
{
    if i < rest.len() && rest[i] != '\n' {
        shifted_ends(front, rest, i + 1);
    }
}

/// What stands in front of a line does not change what it describes.
proof fn shifted_devices(front: Seq<char>, rest: Seq<char>, i: int)
    requires
        0 <= i <= rest.len() + 1,
    ensures
        devices_from(front + rest, front.len() + i) == devices_from(rest, i),
    decreases rest.len() + 1 - i,
{
    let all = front + rest;
    if i < rest.len() {
        line_end_bounds(rest, i);
        shifted_ends(front, rest, i);
        let end = line_end(rest, i);
        assert(all.subrange(front.len() + i, front.len() + end) =~= rest.subrange(i, end));
        shifted_devices(front, rest, end + 1);
    }
}

/// Only an STM32 bootloader is a pedal to flash: a listing that shows no device
/// with its id is refused, and one that shows such a device is not.
pub proof fn only_a_bootloader_counts(devices: Seq<DfuDevice>)
    ensures
        has_bootloader(devices_view(devices)) <==> exists|i: int|
            0 <= i < devices.len() && (#[trigger] devices[i]).id@ == "0483:df11"@,
{
    let ds = devices_view(devices);
    if has_bootloader(ds) {
        let i = choose|i: int| 0 <= i < ds.len() && (#[trigger] ds[i]).id == STM_BOOTLOADER_ID@;
        assert(ds[i] == devices[i]@);
        assert(devices[i].id@ == "0483:df11"@);
    }
    if exists|i: int| 0 <= i < devices.len() && (#[trigger] devices[i]).id@ == "0483:df11"@ {
        let i = choose|i: int|
            0 <= i < devices.len() && (#[trigger] devices[i]).id@ == "0483:df11"@;
        assert(ds[i] == devices[i]@);
    }
}

/// The address that is given to `dfu-util` stands for the number, and the other
/// arguments are the ones that it is to be run with.
pub proof fn arguments_name_the_address(alt: nat, address: nat, path: Seq<char>) -> (digits: Seq<char>)
    requires
        address <= u32::MAX,
    ensures
        download_texts(alt, address, path).len() == 6,
        download_texts(alt, address, path)[0] == "-a"@,
        value_of_digits(download_texts(alt, address, path)[1]) == alt,
        download_texts(alt, address, path)[2] == "-s"@,
        download_texts(alt, address, path)[3] == "0x"@ + digits + ":leave"@,
        digits.len() == 8,
        value_of_hex_digits(digits) == address,
        download_texts(alt, address, path)[4] == "-D"@,
        download_texts(alt, address, path)[5] == path,
{
    decimals_stand_for_their_number(alt);
    hex_digits_stand_for_their_number(address, 8, true);
    assert(pow_16(8) == 0x1_0000_0000) by {
        reveal_with_fuel(pow_16, 9);
    }
    hex(address, 8, true)
}

/// Blanks, tabs and the ends of lines are white space; letters, digits and signs are
/// not.
pub proof fn what_white_space_is(c: char)
    ensures
        c == ' ' || c == '\t' || c == '\n' || c == '\r' ==> white(c),
        '!' <= c <= '~' ==> !white(c),
{
}

/// What is said of a failure holds what the tool or the system said.
pub proof fn failures_say_what_was_said(text: String)
    ensures
        dfu_message(DfuError::Failed(text)) == "dfu-util failed: "@ + text@,
        dfu_message(DfuError::Io(text)) == "could not run dfu-util: "@ + text@,
{
}

/// Only a decimal number up to 255 is taken for an alternate setting.
pub proof fn only_small_numbers_are_settings(s: Seq<char>, i: int)
    ensures
        s.len() == 0 ==> parsed_u8(s) is None,
        0 < i < s.len() && !('0' <= s[i] <= '9') ==> parsed_u8(s) is None,
        s.len() > 0 && s[0] != '+' && !('0' <= s[0] <= '9') ==> parsed_u8(s) is None,
        s.len() > 0 && (forall|j: int| 0 <= j < s.len() ==> '0' <= #[trigger] s[j] <= '9') ==> (
        value_of_digits(s) <= 255 ==> parsed_u8(s) == Some(value_of_digits(s) as u8)) && (
        value_of_digits(s) > 255 ==> parsed_u8(s) is None),
{
    let d = unsigned_part(s);
    if 0 < i < s.len() && !('0' <= s[i] <= '9') {
        if s[0] == '+' {
            assert(d[i - 1] == s[i]);
        } else {
            assert(d[i] == s[i]);
        }
    }
    if s.len() > 0 && s[0] != '+' && !('0' <= s[0] <= '9') {
        assert(d[0] == s[0]);
    }
    if s.len() > 0 && (forall|j: int| 0 <= j < s.len() ==> '0' <= #[trigger] s[j] <= '9') {
        assert('0' <= s[0] <= '9');
        number_of_digits(s);
        assert(forall|j: int| 0 <= j < d.len() ==> is_digit(#[trigger] d[j]));
    }
}

/// A device of which a line tells no setting has none, and one of which it tells no
/// name has an empty one.
pub proof fn what_is_not_told_is_left_out(line: Seq<char>)
    requires
        line.len() > 0,
        !white(line[0]),
        !white(line.last()),
        device_of(line) is Some,
    ensures
        (forall|j: int|
            0 <= j && j + 4 <= line.len() ==> #[trigger] line.subrange(j, j + 4) != "alt="@)
            ==> device_of(line).unwrap().alt is None,
        (forall|j: int|
            0 <= j && j + 6 <= line.len() ==> #[trigger] line.subrange(j, j + 6) != "name=\""@)
            ==> device_of(line).unwrap().name.len() == 0,
{
    reveal_strlit("alt=");
    reveal_strlit("name=\"");
    trimmed_is_itself(line);
    the_first_place_is_found(line, "alt="@, 0);
    the_first_place_is_found(line, "name=\""@, 0);
}

} // verus!
