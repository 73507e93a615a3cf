use vstd::prelude::*;

verus! {

/// The lowercase form of a string, as Unicode's case mapping gives it.
pub uninterp spec fn lower_of(s: Seq<char>) -> Seq<char>;

/// Relies on `str::to_lowercase`: the result depends on the characters
/// alone, and an empty string stays empty.
#[verifier::external_body]
fn lowercase(s: &str) -> (lower: String)
    ensures
        lower@ == lower_of(s@),
        s@.len() == 0 ==> lower@.len() == 0,
{
    s.to_lowercase()
}

/// Two device names that are equal up to case.
pub open spec fn names_match(name: Seq<char>, desired: Seq<char>) -> bool {
    lower_of(name) == lower_of(desired)
}

/// The index of the first name equal to `desired`, or `None`.
pub fn find_name(names: &Vec<String>, desired: &String) -> (found: Option<usize>)
    ensures
        found.is_none() ==> forall|j: int| 0 <= j < names@.len() ==> #[trigger] names@[j]@ != desired@,
        found matches Some(i) ==> {
            &&& i < names@.len()
            &&& names@[i as int]@ == desired@
            &&& forall|j: int| 0 <= j < i ==> #[trigger] names@[j]@ != desired@
        },
{
    let mut i: usize = 0;
    while i < names.len()
        invariant
            i <= names@.len(),
            forall|j: int| 0 <= j < i ==> #[trigger] names@[j]@ != desired@,
        decreases names@.len() - i,
    {
        if names[i].eq(desired) {
            return Some(i);
        }
        i = i + 1;
    }
    None
}

/// The index of the first device whose name equals `desired` up to case.
/// `None` where `desired` is empty or no name matches: the caller then
/// takes the backend's default input device.
pub fn select_device(names: &Vec<String>, desired: &str) -> (choice: Option<usize>)
    ensures
        desired@.len() == 0 ==> choice.is_none(),
        choice.is_none() && desired@.len() != 0 ==>
            forall|j: int| 0 <= j < names@.len() ==> !names_match(#[trigger] names@[j]@, desired@),
        choice matches Some(i) ==> {
            &&& desired@.len() != 0
            &&& i < names@.len()
            &&& names_match(names@[i as int]@, desired@)
            &&& forall|j: int| 0 <= j < i ==> !names_match(#[trigger] names@[j]@, desired@)
        },
{
    if desired.unicode_len() == 0 {
        return None;
    }
    let mut lowered: Vec<String> = Vec::new();
    let mut k: usize = 0;
    while k < names.len()
        invariant
            k <= names@.len(),
            lowered@.len() == k,
            forall|j: int| 0 <= j < k ==> (#[trigger] lowered@[j])@ == lower_of(names@[j]@),
        decreases names@.len() - k,
    {
        lowered.push(lowercase(names[k].as_str()));
        k = k + 1;
    }
    let wanted = lowercase(desired);
    let found = find_name(&lowered, &wanted);
    assert forall|j: int| 0 <= j < names@.len() implies
        (names_match(#[trigger] names@[j]@, desired@) <==> lowered@[j]@ == wanted@) by {}
    found
}

/// A capability that the chosen device lacks.
#[derive(Clone, Copy, Debug, PartialEq, Eq, Structural)]
pub enum DeviceError {
    /// No stereo channel layout.
    NoStereo,
    /// No 16-bit signed little-endian sample format.
    NoS16le,
    /// The requested sample rate, in Hz, is not offered.
    UnsupportedRate(i32),
}

/// Checks the chosen device's capabilities in order: stereo layout, then
/// the 16-bit format, then the sample rate. The first one missing is the
/// error.
pub fn check_device_support(stereo: bool, s16le: bool, rate_supported: bool, sample_rate: i32)
    -> (checked: Result<(), DeviceError>)
    ensures
        !stereo ==> checked == Err::<(), DeviceError>(DeviceError::NoStereo),
        stereo && !s16le ==> checked == Err::<(), DeviceError>(DeviceError::NoS16le),
        stereo && s16le && !rate_supported
            ==> checked == Err::<(), DeviceError>(DeviceError::UnsupportedRate(sample_rate)),
        stereo && s16le && rate_supported ==> checked == Ok::<(), DeviceError>(()),
{
    if !stereo {
        Err(DeviceError::NoStereo)
    } else if !s16le {
        Err(DeviceError::NoS16le)
    } else if !rate_supported {
        Err(DeviceError::UnsupportedRate(sample_rate))
    } else {
        Ok(())
    }
}

} // verus!
