//! Decisions of the native camera research probe: which enumerated device is
//! the research camera, which native media types and photo properties are
//! wanted, and when enough post-warm-up samples have been kept.

use vstd::prelude::*;

verus! {

/// The lower-case form of `s`, as `str::to_lowercase` computes it.
pub uninterp spec fn lowercase(s: Seq<char>) -> Seq<char>;

/// Calls `str::to_lowercase` and lists the characters of the result.
/// Claimed: the characters are the fixed function `lowercase` of the input's
/// characters; std documents the mapping by Unicode's lowercase tables, which
/// is not stated here.
#[verifier::external_body]
fn lowercase_chars(s: &str) -> (lower: Vec<char>)
    ensures
        lower@ == lowercase(s@),
{
    s.to_lowercase().chars().collect()
}

/// The USB hardware-ID fragment of the research camera's first interface.
pub open spec fn research_camera_id() -> Seq<char> {
    seq!['v', 'i', 'd', '_', '0', 'c', '4', '5', '&', 'p', 'i', 'd', '_', '6', '3', '6', '9', '&', 'm', 'i', '_', '0', '0']
}

/// `needle` occurs in `haystack` as a contiguous run.
pub open spec fn occurs_in(needle: Seq<char>, haystack: Seq<char>) -> bool {
    exists|start: int|
        0 <= start && start + needle.len() <= haystack.len() && #[trigger] haystack.subrange(
            start,
            start + needle.len(),
        ) == needle
}

fn occurs_at(needle: &Vec<char>, haystack: &Vec<char>, start: usize) -> (r: bool)
    requires
        start + needle@.len() <= haystack@.len(),
    ensures
        r == (haystack@.subrange(start as int, start + needle@.len()) == needle@),
{
    let total = haystack.len();
    let mut k: usize = 0;
    while k < needle.len()
        invariant
            total == haystack@.len(),
            0 <= k <= needle@.len(),
            start + needle@.len() <= haystack@.len(),
            forall|j: int| 0 <= j < k ==> haystack@[start + j] == needle@[j],
        decreases needle@.len() - k,
    {
        if haystack[start + k] != needle[k] {
            assert(haystack@.subrange(start as int, start + needle@.len())[k as int] != needle@[k as int]);
            return false;
        }
        k = k + 1;
    }
    assert(haystack@.subrange(start as int, start + needle@.len()) =~= needle@);
    true
}

/// Whether `needle` occurs in `haystack`.
fn occurs(needle: &Vec<char>, haystack: &Vec<char>) -> (r: bool)
    ensures
        r == occurs_in(needle@, haystack@),
{
    if needle.len() > haystack.len() {
        return false;
    }
    let last = haystack.len() - needle.len();
    let mut start: usize = 0;
    loop
        invariant_except_break
            0 <= start <= last,
            forall|s: int|
                0 <= s < start ==> #[trigger] haystack@.subrange(s, s + needle@.len()) != needle@,
        invariant
            last == haystack@.len() - needle@.len(),
        ensures
            forall|s: int|
                0 <= s <= last ==> #[trigger] haystack@.subrange(s, s + needle@.len()) != needle@,
        decreases last - start,
    {
        if occurs_at(needle, haystack, start) {
            return true;
        }
        if start == last {
            break;
        }
        start = start + 1;
    }
    false
}

/// Whether a device ID names the research camera, ignoring case.
pub fn is_research_camera(id: &str) -> (r: bool)
    ensures
        r == occurs_in(research_camera_id(), lowercase(id@)),
{
    let needle = vec!['v', 'i', 'd', '_', '0', 'c', '4', '5', '&', 'p', 'i', 'd', '_', '6', '3', '6', '9', '&', 'm', 'i', '_', '0', '0'];
    assert(needle@ =~= research_camera_id());
    let lower = lowercase_chars(id);
    occurs(&needle, &lower)
}

/// A second device matched the research camera's ID.
#[derive(Debug, Clone, Copy, PartialEq, Eq)]
pub struct AmbiguousCamera {
    pub first: usize,
    pub second: usize,
}

/// The research camera chosen so far while devices are enumerated.
pub struct CameraSelection {
    selected: Option<usize>,
}

impl CameraSelection {
    pub closed spec fn chosen(&self) -> Option<usize> {
        self.selected
    }

    pub fn new() -> (selection: Self)
        ensures
            selection.chosen() is None,
    {
        CameraSelection { selected: None }
    }

    pub fn selected(&self) -> (index: Option<usize>)
        ensures
            index == self.chosen(),
    {
        self.selected
    }

    /// Consider the device at `index` with ID `id`. A matching device is
    /// chosen when none was; a second match is an error and changes nothing.
    pub fn observe(&mut self, index: usize, id: &str) -> (result: Result<(), AmbiguousCamera>)
        ensures
            !occurs_in(research_camera_id(), lowercase(id@)) ==> result is Ok && final(self).chosen()
                == old(self).chosen(),
            occurs_in(research_camera_id(), lowercase(id@)) ==> match old(self).chosen() {
                None => result is Ok && final(self).chosen() == Some(index),
                Some(first) => result == Err::<(), AmbiguousCamera>(
                    AmbiguousCamera { first, second: index },
                ) && final(self).chosen() == old(self).chosen(),
            },
    {
        if is_research_camera(id) {
            match self.selected {
                Some(first) => {
                    return Err(AmbiguousCamera { first, second: index });
                },
                None => {
                    self.selected = Some(index);
                },
            }
        }
        Ok(())
    }
}

/// The upper and lower 32-bit halves of a packed Media Foundation attribute
/// (frame size as width and height, frame rate as numerator and denominator).
pub fn unpack_pair(packed: u64) -> (halves: (u64, u64))
    ensures
        halves.1 < 0x1_0000_0000,
        halves.0 * 0x1_0000_0000 + halves.1 == packed,
{
    let high = packed >> 32u64;
    let low = packed & 0xffff_ffffu64;
    assert(high == packed / 0x1_0000_0000 && low == packed % 0x1_0000_0000) by (bit_vector)
        requires
            high == packed >> 32u64,
            low == packed & 0xffff_ffffu64,
    ;
    (high, low)
}

/// Width 1920 and height 1080.
pub open spec fn full_hd(width: Option<u64>, height: Option<u64>) -> bool {
    width == Some(1920u64) && height == Some(1080u64)
}

/// Whether an advertised photo property is 1920x1080.
pub fn is_full_hd(width: Option<u64>, height: Option<u64>) -> (r: bool)
    ensures
        r == full_hd(width, height),
{
    width == Some(1920u64) && height == Some(1080u64)
}

/// A native MJPEG media type of 1920x1080 at exactly 30 frames per second,
/// from its packed frame size and frame rate.
pub open spec fn native_mjpeg_1080p30(is_mjpeg: bool, frame_size: Option<u64>, frame_rate: Option<u64>) -> bool {
    &&& is_mjpeg
    &&& frame_size matches Some(size) && size / 0x1_0000_0000 == 1920 && size % 0x1_0000_0000 == 1080
    &&& frame_rate matches Some(rate) && rate % 0x1_0000_0000 > 0 && rate / 0x1_0000_0000 == 30 * (
    rate % 0x1_0000_0000)
}

/// Whether a native media type is the wanted MJPEG 1080p30 stream.
pub fn is_native_mjpeg_1080p30(is_mjpeg: bool, frame_size: Option<u64>, frame_rate: Option<u64>) -> (r:
    bool)
    ensures
        r == native_mjpeg_1080p30(is_mjpeg, frame_size, frame_rate),
{
    if !is_mjpeg {
        return false;
    }
    let size_fits = match frame_size {
        Some(size) => {
            let (width, height) = unpack_pair(size);
            is_full_hd(Some(width), Some(height))
        },
        None => false,
    };
    let rate_fits = match frame_rate {
        Some(rate) => {
            let (numerator, denominator) = unpack_pair(rate);
            denominator > 0 && numerator == 30 * denominator
        },
        None => false,
    };
    size_fits && rate_fits
}

/// Law: a media type packed as `high * 2^32 + low` in both attributes is
/// chosen exactly when it is MJPEG, its size is 1920 by 1080, and its rate
/// numerator is 30 times a non-zero denominator: 60/2 is 30 fps, 60/1 is not.
pub proof fn lemma_only_exact_1080p30_is_native(
    is_mjpeg: bool,
    width: u64,
    height: u64,
    numerator: u64,
    denominator: u64,
)
    requires
        width < 0x1_0000_0000,
        height < 0x1_0000_0000,
        numerator < 0x1_0000_0000,
        denominator < 0x1_0000_0000,
    ensures
        native_mjpeg_1080p30(
            is_mjpeg,
            Some((width * 0x1_0000_0000 + height) as u64),
            Some((numerator * 0x1_0000_0000 + denominator) as u64),
        ) <==> (is_mjpeg && width == 1920 && height == 1080 && denominator > 0 && numerator == 30
            * denominator),
{
    assert(width * 0x1_0000_0000 + height <= u64::MAX) by (nonlinear_arith)
        requires
            width < 0x1_0000_0000,
            height < 0x1_0000_0000,
    ;
    assert(numerator * 0x1_0000_0000 + denominator <= u64::MAX) by (nonlinear_arith)
        requires
            numerator < 0x1_0000_0000,
            denominator < 0x1_0000_0000,
    ;
    vstd::arithmetic::div_mod::lemma_fundamental_div_mod_converse(
        width * 0x1_0000_0000 + height,
        0x1_0000_0000,
        width as int,
        height as int,
    );
    vstd::arithmetic::div_mod::lemma_fundamental_div_mod_converse(
        numerator * 0x1_0000_0000 + denominator,
        0x1_0000_0000,
        numerator as int,
        denominator as int,
    );
}

/// Law: a media type without a frame size or a frame rate, or not MJPEG, is
/// never chosen.
pub proof fn lemma_native_needs_all_attributes(is_mjpeg: bool, frame_size: Option<u64>, frame_rate: Option<u64>)
    requires
        native_mjpeg_1080p30(is_mjpeg, frame_size, frame_rate),
    ensures
        is_mjpeg,
        frame_size is Some,
        frame_rate is Some,
{
}

/// Number of photos the WinRT path captures, warm-up included.
pub const PHOTO_CAPTURES: u32 = 13;

/// Number of initial photos taken only to warm the camera up.
pub const PHOTO_WARM_UP: u32 = 3;

/// The number under which the capture at `capture_index` is saved, or `None`
/// for a warm-up capture.
pub fn kept_photo_number(capture_index: u32) -> (number: Option<u32>)
    ensures
        number == if capture_index >= PHOTO_WARM_UP {
            Some((capture_index - PHOTO_WARM_UP) as u32)
        } else {
            None::<u32>
        },
{
    if capture_index >= PHOTO_WARM_UP {
        Some(capture_index - PHOTO_WARM_UP)
    } else {
        None
    }
}

/// Number of post-warm-up native samples the probe keeps.
pub const NATIVE_SAMPLES: u32 = 10;

/// What to do with one Source Reader result.
#[derive(Debug, Clone, Copy, PartialEq, Eq)]
pub enum SampleAction {
    /// The reader reported an error or the end of the stream.
    Stop,
    /// No sample, or still warming up.
    Skip,
    /// Save the sample as number `index`; `complete` once enough are kept.
    Keep { index: u32, complete: bool },
}

/// The action for one reader result, given how many samples are kept.
pub open spec fn sample_action(kept: u32, reader_stopped: bool, has_sample: bool, warmed_up: bool) -> SampleAction {
    if reader_stopped {
        SampleAction::Stop
    } else if !has_sample || !warmed_up {
        SampleAction::Skip
    } else {
        SampleAction::Keep { index: kept, complete: kept + 1 == NATIVE_SAMPLES }
    }
}

/// Law: a reader error or end of stream stops collection, whatever else the
/// reader reports and however many samples are kept.
pub proof fn lemma_reader_stop_stops(kept: u32, has_sample: bool, warmed_up: bool)
    ensures
        sample_action(kept, true, has_sample, warmed_up) == SampleAction::Stop,
{
}

/// Law: a sample is kept exactly when the reader goes on, delivers a sample,
/// and the warm-up is over; it is then numbered by how many were kept before,
/// and completes the collection exactly when it is the last one wanted.
pub proof fn lemma_sample_kept_exactly_when_usable(kept: u32, reader_stopped: bool, has_sample: bool, warmed_up: bool)
    ensures
        (sample_action(kept, reader_stopped, has_sample, warmed_up) is Keep) <==> (!reader_stopped && has_sample
            && warmed_up),
        !reader_stopped && !(has_sample && warmed_up) ==> sample_action(kept, reader_stopped, has_sample, warmed_up)
            == SampleAction::Skip,
        !reader_stopped && has_sample && warmed_up ==> sample_action(kept, reader_stopped, has_sample, warmed_up)
            == (SampleAction::Keep { index: kept, complete: kept + 1 == NATIVE_SAMPLES }),
{
}

/// Counts the native samples kept after warm-up.
pub struct SampleCollector {
    kept: u32,
}

impl SampleCollector {
    pub closed spec fn kept_count(&self) -> u32 {
        self.kept
    }

    pub fn new() -> (collector: Self)
        ensures
            collector.kept_count() == 0,
    {
        SampleCollector { kept: 0 }
    }

    pub fn kept(&self) -> (count: u32)
        ensures
            count == self.kept_count(),
    {
        self.kept
    }

    /// Whether the probe kept exactly the wanted number of samples.
    pub fn is_complete(&self) -> (r: bool)
        ensures
            r == (self.kept_count() == NATIVE_SAMPLES),
    {
        self.kept == NATIVE_SAMPLES
    }

    /// Decide on one reader result. Only kept samples are counted.
    pub fn observe(&mut self, reader_stopped: bool, has_sample: bool, warmed_up: bool) -> (action: SampleAction)
        requires
            old(self).kept_count() < NATIVE_SAMPLES,
        ensures
            action == sample_action(old(self).kept_count(), reader_stopped, has_sample, warmed_up),
            final(self).kept_count() == if action is Keep {
                old(self).kept_count() + 1
            } else {
                old(self).kept_count() as int
            },
    {
        if reader_stopped {
            return SampleAction::Stop;
        }
        if !has_sample || !warmed_up {
            return SampleAction::Skip;
        }
        let index = self.kept;
        self.kept = self.kept + 1;
        SampleAction::Keep { index, complete: self.kept == NATIVE_SAMPLES }
    }
}

} // verus!
