//! Cameras: which devices there are, how well they suit face authentication, how
//! they are named, and what a frame of theirs is.

use vstd::prelude::*;
use vstd::string::*;

use crate::error::{ErrorView, FaceAuthError};
use crate::model::{CameraId, CameraIdView};
use crate::text::{
    concat2, concat3, contains, decimal, decimal_text, has, law_contains, law_parse_decimal,
    law_prefix, number_in, parse_number, strip_prefix, trim, trimmed, without_prefix,
};

verus! {

// ---------------------------------------------------------------------------
// Suitability
// ---------------------------------------------------------------------------

/// `s` in lower case.
pub uninterp spec fn lowercase(s: Seq<char>) -> Seq<char>;

pub open spec fn is_ascii_text(s: Seq<char>) -> bool {
    forall|i: int| 0 <= i < s.len() ==> #[trigger] s[i] <= '\u{7f}'
}

/// The lower case of an ASCII character.
pub open spec fn ascii_lower(c: char) -> char {
    if 'A' <= c <= 'Z' {
        (c as int + 32) as char
    } else {
        c
    }
}

/// An ASCII text in lower case.
pub open spec fn ascii_lowercase(s: Seq<char>) -> Seq<char> {
    s.map_values(|c: char| ascii_lower(c))
}

/// `str::to_lowercase`: the text in lower case, by the Unicode `Lowercase`
/// property. Of a text of ASCII characters it turns `A` to `Z` into `a` to `z` and
/// keeps the rest; of other texts nothing is claimed but that the result follows
/// from the text.
#[verifier::external_body]
fn to_lower_case(s: &str) -> (r: String)
    ensures
        r@ == lowercase(s@),
        is_ascii_text(s@) ==> r@ == ascii_lowercase(s@),
{
    s.to_lowercase()
}

/// Whether a device name, in lower case, suggests an infrared camera.
pub open spec fn name_hint(lower: Seq<char>) -> bool {
    ||| contains(lower, "ir"@)
    ||| contains(lower, "infrared"@)
    ||| contains(lower, "windows hello"@)
    ||| contains(lower, "realsense"@)
}

/// One point for a camera that offers greyscale only, one for a name that
/// suggests infrared.
pub open spec fn score(greyscale_only: bool, hint: bool) -> u8 {
    if greyscale_only && hint {
        2
    } else if greyscale_only || hint {
        1
    } else {
        0
    }
}

/// A camera device.
#[derive(Debug)]
pub struct CameraInfo {
    /// `N` in `/dev/videoN`.
    pub index: u32,
    /// The name that the driver gives the device.
    pub name: String,
    /// Whether the device offers greyscale pixel formats only, as infrared
    /// cameras do.
    pub greyscale_only: bool,
}

/// A [`CameraInfo`] as a mathematical value.
#[verifier::ext_equal]
pub struct CameraInfoView {
    pub index: u32,
    pub name: Seq<char>,
    pub greyscale_only: bool,
}

impl View for CameraInfo {
    type V = CameraInfoView;

    open spec fn view(&self) -> CameraInfoView {
        CameraInfoView {
            index: self.index,
            name: self.name@,
            greyscale_only: self.greyscale_only,
        }
    }
}

impl DeepView for CameraInfo {
    type V = CameraInfoView;

    open spec fn deep_view(&self) -> CameraInfoView {
        self@
    }
}

impl Clone for CameraInfo {
    fn clone(&self) -> (r: CameraInfo)
        ensures
            r == *self,
    {
        CameraInfo {
            index: self.index,
            name: self.name.clone(),
            greyscale_only: self.greyscale_only,
        }
    }
}

impl CameraInfoView {
    /// How well the camera suits face authentication.
    pub open spec fn suitability(self) -> u8 {
        score(self.greyscale_only, name_hint(lowercase(self.name)))
    }
}

/// How well a camera suits face authentication, given its name in lower case.
pub fn suitability_of(lower: &str, greyscale_only: bool) -> (r: u8)
    ensures
        r == score(greyscale_only, name_hint(lower@)),
{
    let hint: bool = has(lower, "ir") || has(lower, "infrared") || has(lower, "windows hello")
        || has(lower, "realsense");
    if greyscale_only && hint {
        2
    } else if greyscale_only || hint {
        1
    } else {
        0
    }
}

impl CameraInfo {
    /// How well the camera suits face authentication: 0 for a plain colour
    /// webcam, 1 for one that may be an infrared camera, 2 for one that shows both
    /// signs of it.
    pub fn suitability(&self) -> (r: u8)
        ensures
            r == self@.suitability(),
            is_ascii_text(self.name@) ==> r == score(
                self.greyscale_only,
                name_hint(ascii_lowercase(self.name@)),
            ),
    {
        let lower: String = to_lower_case(self.name.as_str());
        suitability_of(lower.as_str(), self.greyscale_only)
    }
}

// ---------------------------------------------------------------------------
// Devices
// ---------------------------------------------------------------------------

/// The number in a file name of the form `videoN`.
pub open spec fn video_number(file_name: Seq<char>) -> Option<u32> {
    match strip_prefix(file_name, "video"@) {
        Some(rest) => parse_number(rest),
        None => None,
    }
}

/// The number in a file name of the form `videoN`.
pub fn video_index(file_name: &str) -> (r: Option<u32>)
    ensures
        r == video_number(file_name@),
{
    match without_prefix(file_name, "video") {
        Some(rest) => number_in(rest.as_str()),
        None => None,
    }
}

/// The path of a video device.
pub open spec fn device_path(index: u32) -> Seq<char> {
    "/dev/video"@ + decimal(index as nat)
}

/// The path of a video device.
pub fn video_device_path(index: u32) -> (r: String)
    ensures
        r@ == device_path(index),
{
    concat2("/dev/video", decimal_text(index as u64).as_str())
}

/// The device number in a path is the one that the path was made for.
pub proof fn law_device_path_number(index: u32)
    ensures
        strip_prefix(device_path(index), "/dev/"@) matches Some(name) && video_number(name) == Some(
            index,
        ),
{
    reveal_strlit("/dev/video");
    reveal_strlit("/dev/");
    reveal_strlit("video");
    let d = decimal(index as nat);
    let path = device_path(index);
    assert(path.subrange(0, 5) =~= "/dev/"@);
    let name = path.skip(5);
    assert(name =~= "video"@ + d);
    assert(name.subrange(0, 5) =~= "video"@);
    assert(name.skip(5) =~= d);
    law_parse_decimal(index);
}

/// Where the system keeps the name of a video device.
pub fn device_name_path(index: u32) -> (r: String)
    ensures
        r@ == "/sys/class/video4linux/video"@ + decimal(index as nat) + "/name"@,
{
    concat3(
        "/sys/class/video4linux/video",
        decimal_text(index as u64).as_str(),
        "/name",
    )
}

/// What a name file stands for; `None` is a file that could not be read.
pub open spec fn name_text(contents: Option<Seq<char>>) -> Seq<char> {
    match contents {
        Some(s) => trim(s),
        None => Seq::empty(),
    }
}

/// The name of a device, from the contents of its name file; empty if the file
/// could not be read.
pub fn camera_name_for_index(contents: Option<String>) -> (r: String)
    ensures
        r@ == name_text(contents.deep_view()),
{
    match contents {
        Some(s) => trimmed(s.as_str()),
        None => {
            let r: String = String::new();
            proof {
                assert(r@ =~= Seq::empty());
            }
            r
        },
    }
}

/// The bit that marks a device node as able to capture video.
pub const CAP_VIDEO_CAPTURE: u32 = 0x00000001;

/// The bit that says that a node reports capabilities of its own.
pub const CAP_DEVICE_CAPS: u32 = 0x80000000;

/// The capabilities of one device node: its own where it reports them, else those
/// of the whole device.
pub open spec fn node_capabilities(capabilities: u32, device_caps: u32) -> u32 {
    if capabilities & CAP_DEVICE_CAPS != 0 {
        device_caps
    } else {
        capabilities
    }
}

/// Whether a device node can capture video, given the answer to a capability
/// query; `None` is a node that could not be opened or queried. A node that only
/// carries metadata cannot.
pub fn has_video_capture(answer: Option<(u32, u32)>) -> (r: bool)
    ensures
        r == (answer matches Some((capabilities, device_caps)) && node_capabilities(
            capabilities,
            device_caps,
        ) & CAP_VIDEO_CAPTURE != 0),
        r == (answer matches Some((capabilities, device_caps)) && (if capabilities & 0x8000_0000
            != 0 {
            device_caps & 1 != 0
        } else {
            capabilities & 1 != 0
        })),
{
    match answer {
        None => false,
        Some((capabilities, device_caps)) => {
            let effective: u32 = if (capabilities & CAP_DEVICE_CAPS) != 0 {
                device_caps
            } else {
                capabilities
            };
            (effective & CAP_VIDEO_CAPTURE) != 0
        },
    }
}

/// Whether a pixel format holds brightness only: `GREY`, `Y10 `, `Y12 `, `Y16 ` or
/// the big-endian form of the last.
pub open spec fn is_greyscale_format(fourcc: u32) -> bool {
    fourcc == 0x59455247 || fourcc == 0x30313059 || fourcc == 0x32313059 || fourcc == 0x36313059
        || fourcc == 0xb6313059
}

fn all_greyscale(formats: &Vec<u32>) -> (r: bool)
    ensures
        r == forall|i: int|
            0 <= i < formats@.len() ==> is_greyscale_format(#[trigger] formats@[i]),
{
    let mut i: usize = 0;
    while i < formats.len()
        invariant
            i <= formats.len(),
            forall|j: int| 0 <= j < i ==> is_greyscale_format(#[trigger] formats@[j]),
        decreases formats.len() - i,
    {
        let fourcc: u32 = formats[i];
        if !(fourcc == 0x59455247 || fourcc == 0x30313059 || fourcc == 0x32313059 || fourcc
            == 0x36313059 || fourcc == 0xb6313059) {
            proof {
                assert(!is_greyscale_format(formats@[i as int]));
            }
            return false;
        }
        i = i + 1;
    }
    true
}

/// Whether a device offers greyscale formats only, given the formats that it
/// lists; `None` is a device that could not be opened. One that lists no format at
/// all does not.
pub fn is_greyscale_only(formats: &Option<Vec<u32>>) -> (r: bool)
    ensures
        r == (formats matches Some(list) && list@.len() > 0 && forall|i: int|
            0 <= i < list@.len() ==> is_greyscale_format(#[trigger] list@[i])),
{
    match formats {
        None => false,
        Some(list) => list.len() > 0 && all_greyscale(list),
    }
}

// ---------------------------------------------------------------------------
// Listing
// ---------------------------------------------------------------------------

/// `s` with `x` put in before the items at its end whose keys are greater.
pub open spec fn insert_by_key<A>(s: Seq<A>, x: A, key: spec_fn(A) -> int) -> Seq<A>
    decreases s.len(),
{
    if s.len() == 0 || key(s.last()) <= key(x) {
        s.push(x)
    } else {
        insert_by_key(s.drop_last(), x, key).push(s.last())
    }
}

/// `s` in the order of its keys; items with the same key stay in the order they
/// came in.
pub open spec fn sorted_by_key<A>(s: Seq<A>, key: spec_fn(A) -> int) -> Seq<A>
    decreases s.len(),
{
    if s.len() == 0 {
        s
    } else {
        insert_by_key(sorted_by_key(s.drop_last(), key), s.last(), key)
    }
}

/// No item of `s` comes before one with a smaller key.
pub open spec fn is_sorted_by_key<A>(s: Seq<A>, key: spec_fn(A) -> int) -> bool {
    forall|i: int, j: int| 0 <= i <= j < s.len() ==> key(#[trigger] s[i]) <= key(#[trigger] s[j])
}

proof fn lemma_insert_by_key<A>(s: Seq<A>, x: A, key: spec_fn(A) -> int)
    requires
        is_sorted_by_key(s, key),
    ensures
        is_sorted_by_key(insert_by_key(s, x, key), key),
        insert_by_key(s, x, key).to_multiset() == s.to_multiset().insert(x),
        insert_by_key(s, x, key).len() == s.len() + 1,
    decreases s.len(),
{
    broadcast use vstd::seq_lib::group_to_multiset_ensures;

    let r = insert_by_key(s, x, key);
    if s.len() == 0 || key(s.last()) <= key(x) {
    } else {
        let front = s.drop_last();
        let inner = insert_by_key(front, x, key);
        lemma_insert_by_key(front, x, key);
        assert(s =~= front.push(s.last()));
        assert(r.to_multiset() =~= s.to_multiset().insert(x));
        assert forall|i: int| 0 <= i < inner.len() implies key(#[trigger] inner[i]) <= key(
            s.last(),
        ) by {
            assert(inner.to_multiset().contains(inner[i]));
            assert(front.to_multiset().insert(x).contains(inner[i]));
            if inner[i] != x {
                assert(front.to_multiset().contains(inner[i]));
                assert(front.contains(inner[i]));
            }
        }
    }
}

/// Sorting gives the same items, in the order of their keys.
pub proof fn law_sorted_by_key<A>(s: Seq<A>, key: spec_fn(A) -> int)
    ensures
        is_sorted_by_key(sorted_by_key(s, key), key),
        sorted_by_key(s, key).to_multiset() == s.to_multiset(),
        sorted_by_key(s, key).len() == s.len(),
    decreases s.len(),
{
    broadcast use vstd::seq_lib::group_to_multiset_ensures;

    if s.len() > 0 {
        law_sorted_by_key(s.drop_last(), key);
        lemma_insert_by_key(sorted_by_key(s.drop_last(), key), s.last(), key);
        assert(s =~= s.drop_last().push(s.last()));
    }
}

/// Puts `camera` into `list`, sorted by `keys`, where its key belongs.
fn insert_camera(
    list: &mut Vec<CameraInfo>,
    keys: &mut Vec<u64>,
    camera: CameraInfo,
    k: u64,
    Ghost(key): Ghost<spec_fn(CameraInfoView) -> int>,
)
    requires
        old(list)@.len() == old(keys)@.len(),
        forall|i: int| 0 <= i < old(keys)@.len() ==> #[trigger] old(keys)@[i] == key(
            old(list)@[i]@,
        ),
        k == key(camera@),
    ensures
        final(list)@.len() == final(keys)@.len(),
        forall|i: int| 0 <= i < final(keys)@.len() ==> #[trigger] final(keys)@[i] == key(
            final(list)@[i]@,
        ),
        final(list).deep_view() == insert_by_key(old(list).deep_view(), camera@, key),
{
    let ghost before = list.deep_view();
    let mut at: usize = list.len();
    proof {
        assert(before.take(at as int) =~= before);
        assert(before.skip(at as int) =~= Seq::empty());
        let whole = insert_by_key(before, camera@, key);
        assert(whole + before.skip(at as int) =~= whole);
    }
    while at > 0 && keys[at - 1] > k
        invariant
            at <= list@.len(),
            list@ == old(list)@,
            keys@ == old(keys)@,
            list@.len() == keys@.len(),
            before == list.deep_view(),
            k == key(camera@),
            forall|i: int| 0 <= i < keys@.len() ==> #[trigger] keys@[i] == key(list@[i]@),
            insert_by_key(before, camera@, key) == insert_by_key(
                before.take(at as int),
                camera@,
                key,
            ) + before.skip(at as int),
        decreases at,
    {
        proof {
            let part = before.take(at as int);
            assert(part.drop_last() =~= before.take(at - 1));
            assert(part.last() == list@[at - 1]@);
            let inner = insert_by_key(before.take(at - 1), camera@, key);
            assert(inner.push(part.last()) + before.skip(at as int) =~= inner + before.skip(
                at - 1,
            ));
        }
        at = at - 1;
    }
    proof {
        let part = before.take(at as int);
        if at > 0 {
            assert(part.last() == list@[at - 1]@);
            assert(keys@[at - 1] == key(list@[at - 1]@));
        }
        assert(insert_by_key(part, camera@, key) == part.push(camera@));
    }
    let ghost seen = camera@;
    list.insert(at, camera);
    keys.insert(at, k);
    proof {
        assert(list.deep_view() =~= before.take(at as int).push(seen) + before.skip(at as int));
    }
}

/// Where a camera stands in a listing: the more suitable ones first, those alike
/// by their numbers.
pub open spec fn rank(camera: CameraInfoView) -> int {
    (2 - camera.suitability()) * 0x1_0000_0000 + camera.index
}

/// What is known of one entry in the directory of video devices.
pub struct VideoNode {
    /// The entry's file name.
    pub file_name: String,
    /// Whether the device can capture video.
    pub captures: bool,
    /// The contents of the device's name file, if it could be read.
    pub name: Option<String>,
    /// Whether the device offers greyscale formats only.
    pub greyscale_only: bool,
}

/// The camera behind a directory entry, if there is one.
pub open spec fn node_camera(node: VideoNode) -> Option<CameraInfoView> {
    match video_number(node.file_name@) {
        Some(index) if node.captures => Some(
            CameraInfoView {
                index,
                name: name_text(node.name.deep_view()),
                greyscale_only: node.greyscale_only,
            },
        ),
        _ => None,
    }
}

/// The cameras among directory entries, in the same order.
pub open spec fn node_cameras(nodes: Seq<VideoNode>) -> Seq<CameraInfoView>
    decreases nodes.len(),
{
    if nodes.len() == 0 {
        Seq::empty()
    } else {
        let front = node_cameras(nodes.drop_last());
        match node_camera(nodes.last()) {
            Some(camera) => front.push(camera),
            None => front,
        }
    }
}

/// The cameras among the entries of the directory of video devices, the most
/// suitable first and those that suit alike by their numbers.
pub fn list_cameras(nodes: &Vec<VideoNode>) -> (r: Vec<CameraInfo>)
    ensures
        r.deep_view() == sorted_by_key(node_cameras(nodes@), |c: CameraInfoView| rank(c)),
{
    let ghost key = |c: CameraInfoView| rank(c);
    let mut list: Vec<CameraInfo> = Vec::new();
    let mut keys: Vec<u64> = Vec::new();
    let mut i: usize = 0;
    proof {
        assert(nodes@.take(0) =~= Seq::empty());
        assert(list.deep_view() =~= Seq::empty());
    }
    while i < nodes.len()
        invariant
            i <= nodes.len(),
            key == (|c: CameraInfoView| rank(c)),
            list@.len() == keys@.len(),
            forall|j: int| 0 <= j < keys@.len() ==> #[trigger] keys@[j] == key(list@[j]@),
            list.deep_view() == sorted_by_key(node_cameras(nodes@.take(i as int)), key),
        decreases nodes.len() - i,
    {
        let node: &VideoNode = &nodes[i];
        proof {
            assert(nodes@.take(i + 1).drop_last() =~= nodes@.take(i as int));
            assert(nodes@.take(i + 1).last() == node);
        }
        let found: Option<u32> = video_index(node.file_name.as_str());
        if let Some(index) = found {
            if node.captures {
                let name: String = match &node.name {
                    Some(s) => trimmed(s.as_str()),
                    None => String::new(),
                };
                proof {
                    assert(name@ =~= name_text(node.name.deep_view()));
                }
                let camera = CameraInfo { index, name, greyscale_only: node.greyscale_only };
                let suits: u8 = camera.suitability();
                let k: u64 = (2 - suits) as u64 * 0x1_0000_0000 + index as u64;
                proof {
                    let front = node_cameras(nodes@.take(i as int));
                    assert(front.push(camera@).drop_last() =~= front);
                }
                insert_camera(&mut list, &mut keys, camera, k, Ghost(key));
            }
        }
        i = i + 1;
    }
    proof {
        assert(nodes@.take(i as int) =~= nodes@);
    }
    list
}

/// In a listing no camera comes before a more suitable one, and every camera is
/// there.
pub proof fn law_listing_by_suitability(nodes: Seq<VideoNode>)
    ensures
        ({
            let listed = sorted_by_key(node_cameras(nodes), |c: CameraInfoView| rank(c));
            &&& listed.to_multiset() == node_cameras(nodes).to_multiset()
            &&& forall|i: int, j: int|
                0 <= i <= j < listed.len() ==> (#[trigger] listed[i]).suitability() >= (
                #[trigger] listed[j]).suitability()
            &&& forall|i: int, j: int|
                0 <= i <= j < listed.len() && listed[i].suitability() == listed[j].suitability()
                    ==> (#[trigger] listed[i]).index <= (#[trigger] listed[j]).index
        }),
{
    let key = |c: CameraInfoView| rank(c);
    let listed = sorted_by_key(node_cameras(nodes), key);
    law_sorted_by_key(node_cameras(nodes), key);
    assert forall|i: int, j: int| 0 <= i <= j < listed.len() implies (
    #[trigger] listed[i]).suitability() >= (#[trigger] listed[j]).suitability() by {
        assert(key(listed[i]) <= key(listed[j]));
    }
    assert forall|i: int, j: int|
        0 <= i <= j < listed.len() && listed[i].suitability() == listed[j].suitability() implies (
    #[trigger] listed[i]).index <= (#[trigger] listed[j]).index by {
        assert(key(listed[i]) <= key(listed[j]));
    }
}

/// `cameras` by their numbers.
pub fn cameras_by_index(cameras: &Vec<CameraInfo>) -> (r: Vec<CameraInfo>)
    ensures
        r.deep_view() == sorted_by_key(cameras.deep_view(), |c: CameraInfoView| c.index as int),
{
    let ghost key = |c: CameraInfoView| c.index as int;
    let ghost all = cameras.deep_view();
    let mut list: Vec<CameraInfo> = Vec::new();
    let mut keys: Vec<u64> = Vec::new();
    let mut i: usize = 0;
    proof {
        assert(list.deep_view() =~= all.take(0));
    }
    while i < cameras.len()
        invariant
            i <= cameras.len(),
            all == cameras.deep_view(),
            key == (|c: CameraInfoView| c.index as int),
            list@.len() == keys@.len(),
            forall|j: int| 0 <= j < keys@.len() ==> #[trigger] keys@[j] == key(list@[j]@),
            list.deep_view() == sorted_by_key(all.take(i as int), key),
        decreases cameras.len() - i,
    {
        proof {
            assert(all.take(i + 1).drop_last() =~= all.take(i as int));
            assert(all.take(i + 1).last() == cameras@[i as int]@);
        }
        insert_camera(
            &mut list,
            &mut keys,
            cameras[i].clone(),
            cameras[i].index as u64,
            Ghost(key),
        );
        i = i + 1;
    }
    proof {
        assert(all.take(i as int) =~= all);
    }
    list
}

// ---------------------------------------------------------------------------
// Stable names
// ---------------------------------------------------------------------------

/// What is known of one link in a directory of stable camera names.
pub struct DeviceLink {
    /// The link's name.
    pub name: String,
    /// The file name of what the link resolves to, if it resolves.
    pub target: Option<String>,
}

/// The device that a link's target stands for.
pub open spec fn target_number(target: Option<Seq<char>>) -> Option<u32> {
    match target {
        Some(file_name) => video_number(file_name),
        None => None,
    }
}

/// The device that a path resolves to, given the file name of what it resolves
/// to; `None` is a path that does not resolve.
pub fn resolve_video_symlink(target: &Option<String>) -> (r: Option<u32>)
    ensures
        r == target_number(target.deep_view()),
{
    match target {
        Some(file_name) => video_index(file_name.as_str()),
        None => None,
    }
}

/// The links among `links` that lead to a device, each with the device's number.
pub open spec fn resolved_links(links: Seq<DeviceLink>) -> Seq<(Seq<char>, u32)>
    decreases links.len(),
{
    if links.len() == 0 {
        Seq::empty()
    } else {
        let front = resolved_links(links.drop_last());
        match target_number(links.last().target.deep_view()) {
            Some(index) => front.push((links.last().name@, index)),
            None => front,
        }
    }
}

/// The links of a directory that lead to a device, each with the device's number.
pub fn enumerate_v4l_dir(links: &Vec<DeviceLink>) -> (r: Vec<(String, u32)>)
    ensures
        r.deep_view() == resolved_links(links@),
{
    let mut out: Vec<(String, u32)> = Vec::new();
    let mut i: usize = 0;
    proof {
        assert(links@.take(0) =~= Seq::empty());
        assert(out.deep_view() =~= Seq::empty());
    }
    while i < links.len()
        invariant
            i <= links.len(),
            out.deep_view() == resolved_links(links@.take(i as int)),
        decreases links.len() - i,
    {
        let link: &DeviceLink = &links[i];
        proof {
            assert(links@.take(i + 1).drop_last() =~= links@.take(i as int));
            assert(links@.take(i + 1).last() == link);
        }
        let found: Option<u32> = resolve_video_symlink(&link.target);
        if let Some(index) = found {
            let ghost before = out.deep_view();
            out.push((link.name.clone(), index));
            proof {
                assert(out.deep_view() =~= before.push((link.name@, index)));
            }
        }
        i = i + 1;
    }
    proof {
        assert(links@.take(i as int) =~= links@);
    }
    out
}

/// The name of the first link that leads to device `index`.
pub open spec fn first_name(links: Seq<(Seq<char>, u32)>, index: u32) -> Option<Seq<char>>
    decreases links.len(),
{
    if links.len() == 0 {
        None
    } else if links[0].1 == index {
        Some(links[0].0)
    } else {
        first_name(links.drop_first(), index)
    }
}

fn find_name(links: &Vec<(String, u32)>, index: u32) -> (r: Option<String>)
    ensures
        r.deep_view() == first_name(links.deep_view(), index),
{
    let ghost all = links.deep_view();
    let mut i: usize = 0;
    proof {
        assert(all.skip(0) =~= all);
    }
    while i < links.len()
        invariant
            i <= links.len(),
            all == links.deep_view(),
            first_name(all, index) == first_name(all.skip(i as int), index),
        decreases links.len() - i,
    {
        proof {
            assert(all.skip(i as int)[0] == (links@[i as int].0@, links@[i as int].1));
            assert(all.skip(i as int).drop_first() =~= all.skip(i + 1));
        }
        if links[i].1 == index {
            return Some(links[i].0.clone());
        }
        i = i + 1;
    }
    None
}

/// The identity of device `index`, given the links in the directories of stable
/// names: the first name in each that leads to the device.
pub fn camera_id_for_index(
    index: u32,
    by_id: &Vec<DeviceLink>,
    by_path: &Vec<DeviceLink>,
) -> (r: CameraId)
    ensures
        r@ == (CameraIdView {
            by_id: first_name(resolved_links(by_id@), index),
            by_path: first_name(resolved_links(by_path@), index),
            index,
        }),
{
    let ids: Vec<(String, u32)> = enumerate_v4l_dir(by_id);
    let paths: Vec<(String, u32)> = enumerate_v4l_dir(by_path);
    CameraId { by_id: find_name(&ids, index), by_path: find_name(&paths, index), index }
}

/// The device that a camera identity stands for, given the file names of what its
/// stable names resolve to now: the serial number decides, then the port, and the
/// stored number only where neither resolves.
pub open spec fn resolved_index(
    id: CameraIdView,
    by_id: Option<Seq<char>>,
    by_path: Option<Seq<char>>,
) -> u32 {
    if id.by_id is Some && target_number(by_id) is Some {
        target_number(by_id)->0
    } else if id.by_path is Some && target_number(by_path) is Some {
        target_number(by_path)->0
    } else {
        id.index
    }
}

/// The device that `id` stands for. `by_id` and `by_path` are the file names of
/// what the names in `id` resolve to now, `None` where a name does not resolve.
pub fn resolve_camera_index(
    id: &CameraId,
    by_id: &Option<String>,
    by_path: &Option<String>,
) -> (r: u32)
    ensures
        r == resolved_index(id@, by_id.deep_view(), by_path.deep_view()),
        id.by_id is Some ==> (by_id matches Some(t) ==> (video_number(t@) matches Some(n) ==> r
            == n)),
        (id.by_id is None || (by_id matches Some(t) ==> video_number(t@) is None))
            && id.by_path is Some ==> (by_path matches Some(t) ==> (video_number(t@) matches Some(
            n,
        ) ==> r == n)),
{
    if id.by_id.is_some() {
        let found: Option<u32> = resolve_video_symlink(by_id);
        if let Some(index) = found {
            return index;
        }
    }
    if id.by_path.is_some() {
        let found: Option<u32> = resolve_video_symlink(by_path);
        if let Some(index) = found {
            return index;
        }
    }
    id.index
}

/// What the link called `name` resolves to, in a directory with these links.
pub open spec fn link_target(links: Seq<DeviceLink>, name: Seq<char>) -> Option<Seq<char>>
    decreases links.len(),
{
    if links.len() == 0 {
        None
    } else if links.last().name@ == name {
        links.last().target.deep_view()
    } else {
        link_target(links.drop_last(), name)
    }
}

/// No two links have the same name, as in any directory.
pub open spec fn names_differ(links: Seq<DeviceLink>) -> bool {
    forall|i: int, j: int|
        0 <= i < j < links.len() ==> (#[trigger] links[i]).name@ != (#[trigger] links[j]).name@
}

proof fn lemma_first_name_found(links: Seq<(Seq<char>, u32)>, index: u32)
    requires
        first_name(links, index) is Some,
    ensures
        links.contains((first_name(links, index)->0, index)),
    decreases links.len(),
{
    if links[0].1 == index {
        assert(links[0] == (first_name(links, index)->0, index));
    } else {
        lemma_first_name_found(links.drop_first(), index);
        let i = links.drop_first().index_of((first_name(links, index)->0, index));
        assert(links[i + 1] == links.drop_first()[i]);
    }
}

proof fn lemma_resolved_links_origin(links: Seq<DeviceLink>, name: Seq<char>, index: u32)
    requires
        resolved_links(links).contains((name, index)),
    ensures
        exists|i: int|
            0 <= i < links.len() && (#[trigger] links[i]).name@ == name && target_number(
                links[i].target.deep_view(),
            ) == Some(index),
    decreases links.len(),
{
    if links.len() > 0 {
        let front = links.drop_last();
        let all = resolved_links(links);
        let k = all.index_of((name, index));
        assert(all[k] == (name, index));
        if target_number(links.last().target.deep_view()) is Some && k == all.len() - 1 {
            assert(links[links.len() - 1].name@ == name);
        } else {
            assert(resolved_links(front)[k] == (name, index));
            lemma_resolved_links_origin(front, name, index);
            let i = choose|i: int|
                0 <= i < front.len() && (#[trigger] front[i]).name@ == name && target_number(
                    front[i].target.deep_view(),
                ) == Some(index);
            assert(links[i] == front[i]);
        }
    }
}

proof fn lemma_link_target(links: Seq<DeviceLink>, i: int)
    requires
        names_differ(links),
        0 <= i < links.len(),
    ensures
        link_target(links, links[i].name@) == links[i].target.deep_view(),
    decreases links.len(),
{
    if i < links.len() - 1 {
        assert(links[i].name@ != links[links.len() - 1].name@);
        let front = links.drop_last();
        assert forall|a: int, b: int| 0 <= a < b < front.len() implies (
        #[trigger] front[a]).name@ != (#[trigger] front[b]).name@ by {
            assert(links[a].name@ != links[b].name@);
        }
        lemma_link_target(front, i);
    }
}

proof fn lemma_name_leads_back(links: Seq<DeviceLink>, index: u32)
    requires
        names_differ(links),
        first_name(resolved_links(links), index) is Some,
    ensures
        target_number(link_target(links, first_name(resolved_links(links), index)->0)) == Some(
            index,
        ),
{
    let name = first_name(resolved_links(links), index)->0;
    lemma_first_name_found(resolved_links(links), index);
    lemma_resolved_links_origin(links, name, index);
    let i = choose|i: int|
        0 <= i < links.len() && (#[trigger] links[i]).name@ == name && target_number(
            links[i].target.deep_view(),
        ) == Some(index);
    lemma_link_target(links, i);
}

/// While no link changes, the identity recorded for a device leads back to it.
pub proof fn law_identity_leads_back(
    index: u32,
    by_id: Seq<DeviceLink>,
    by_path: Seq<DeviceLink>,
)
    requires
        names_differ(by_id),
        names_differ(by_path),
    ensures
        ({
            let id = CameraIdView {
                by_id: first_name(resolved_links(by_id), index),
                by_path: first_name(resolved_links(by_path), index),
                index,
            };
            let id_target = match id.by_id {
                Some(name) => link_target(by_id, name),
                None => None,
            };
            let path_target = match id.by_path {
                Some(name) => link_target(by_path, name),
                None => None,
            };
            resolved_index(id, id_target, path_target) == index
        }),
{
    if first_name(resolved_links(by_id), index) is Some {
        lemma_name_leads_back(by_id, index);
    }
    if first_name(resolved_links(by_path), index) is Some {
        lemma_name_leads_back(by_path, index);
    }
}

/// A camera is found by its stable name even when its device number has changed.
pub proof fn law_stable_name_beats_number(
    id: CameraIdView,
    by_id: Option<Seq<char>>,
    by_path: Option<Seq<char>>,
    now: u32,
)
    requires
        id.by_id is Some && target_number(by_id) == Some(now),
    ensures
        resolved_index(id, by_id, by_path) == now,
{
}

// ---------------------------------------------------------------------------
// Frames
// ---------------------------------------------------------------------------

/// A captured video frame.
pub struct Frame {
    /// Three bytes for each pixel, row by row without padding.
    pub data: Vec<u8>,
    pub width: u32,
    pub height: u32,
}

impl Frame {
    /// There are bytes for every pixel of the frame.
    pub open spec fn wf(&self) -> bool {
        3 * (self.width * self.height) <= self.data@.len()
    }

    /// The frame has this size, and its pixels have this brightness.
    pub open spec fn shows(&self, width: u32, height: u32, plane: Seq<u8>) -> bool {
        &&& self.data@ == tripled(plane)
        &&& self.width == width
        &&& self.height == height
    }
}

/// How the pixels of an uncompressed frame are laid out.
#[derive(Debug, Clone, Copy, PartialEq, Eq, Structural)]
pub enum PixelFormat {
    Yuyv,
    Nv12,
    Gray,
    RawRgb,
    RawBgr,
}

/// Whether a frame of `len` bytes is one that decoding accepts or rejects, without
/// failing midway.
pub open spec fn decodable(format: PixelFormat, width: u32, height: u32, len: nat) -> bool {
    match format {
        PixelFormat::Yuyv | PixelFormat::Gray => true,
        PixelFormat::RawRgb | PixelFormat::RawBgr => len % 3 == 0,
        PixelFormat::Nv12 => {
            &&& 3 * width <= u32::MAX
            &&& 3 * (width * height) <= u32::MAX
            &&& !(width == 0 && height % 2 == 0 && len == 0)
        },
    }
}

/// Whether a frame of `len` bytes has what its size asks for.
pub open spec fn frame_fits(format: PixelFormat, width: u32, height: u32, len: nat) -> bool {
    match format {
        PixelFormat::Gray => width * height <= len,
        PixelFormat::RawRgb | PixelFormat::RawBgr => width * height <= len / 3,
        PixelFormat::Yuyv => len % 4 == 0 && width * height <= len / 2,
        PixelFormat::Nv12 => width % 2 == 0 && height % 2 == 0 && 2 * len == 3 * (width * height),
    }
}

/// The mean of each three bytes, rounded down.
pub open spec fn byte_means(raw: Seq<u8>) -> Seq<u8> {
    Seq::new(
        raw.len() / 3,
        |i: int| ((raw[3 * i] as int + raw[3 * i + 1] as int + raw[3 * i + 2] as int) / 3) as u8,
    )
}

/// `n`, or the bound of a byte that is nearest to it.
pub open spec fn to_byte(n: int) -> int {
    if n < 0 {
        0
    } else if n > 255 {
        255
    } else {
        n
    }
}

/// The brightness of a pixel with luminance `y` and colour differences `u` and `v`: the
/// mean of its red, green and blue components.
pub open spec fn yuv_mean(y: u8, u: u8, v: u8) -> u8 {
    let c = 298 * (y - 16) + 128;
    let red = to_byte((c + 409 * (v - 128)) / 256);
    let green = to_byte((c - 100 * (u - 128) - 208 * (v - 128)) / 256);
    let blue = to_byte((c + 516 * (u - 128)) / 256);
    ((red + green + blue) / 3) as u8
}

/// The brightness of each pixel of a frame. In the two layouts with colour differences,
/// pixels share these: two in a row, or two in each of two rows.
pub open spec fn luma_of(format: PixelFormat, width: u32, height: u32, raw: Seq<u8>) -> Seq<u8> {
    match format {
        PixelFormat::Gray => raw,
        PixelFormat::RawRgb | PixelFormat::RawBgr => byte_means(raw),
        PixelFormat::Yuyv => Seq::new(
            raw.len() / 2,
            |i: int| yuv_mean(raw[2 * i], raw[4 * (i / 2) + 1], raw[4 * (i / 2) + 3]),
        ),
        PixelFormat::Nv12 => Seq::new(
            (width * height) as nat,
            |i: int|
                {
                    let row = i / width as int;
                    let column = i % width as int;
                    let shared = width * height + (row / 2) * width + 2 * (column / 2);
                    yuv_mean(raw[i], raw[shared], raw[shared + 1])
                },
        ),
    }
}

/// What is said of a frame that lacks what its size asks for.
pub open spec fn decode_error(format: PixelFormat, width: u32, height: u32, len: nat) -> Seq<char> {
    match format {
        PixelFormat::Gray => "Could not process frame GRAY to F: Failed to create buffer"@,
        PixelFormat::RawRgb => "Could not process frame RAWRGB to F: Failed to create buffer"@,
        PixelFormat::RawBgr => "Could not process frame RAWBGR to F: Failed to create buffer"@,
        PixelFormat::Yuyv => if len % 4 == 0 {
            "Could not process frame YUYV to F: Failed to create buffer"@
        } else {
            "Could not process frame YUYV to RGB888: Assertion failure, the YUV stream isn't 4:2:2! (wrong number of bytes)"@
        },
        PixelFormat::Nv12 => if width % 2 == 0 && height % 2 == 0 {
            "Could not process frame NV12 to RGB: bad input buffer size"@
        } else {
            "Could not process frame NV12 to RGB: bad resolution"@
        },
    }
}

/// The brightness of each pixel of a frame, or what is said of it instead.
pub open spec fn decoded(format: PixelFormat, width: u32, height: u32, raw: Seq<u8>) -> Result<
    Seq<u8>,
    Seq<char>,
> {
    if frame_fits(format, width, height, raw.len()) {
        Ok(luma_of(format, width, height, raw))
    } else {
        Err(decode_error(format, width, height, raw.len()))
    }
}

/// `nokhwa::Buffer::decode_image` with `LumaFormat`, on a buffer that
/// `nokhwa::Buffer::new` makes of the bytes. It succeeds exactly on a frame that has
/// the bytes that its size asks for, with the brightness of each pixel: the byte
/// itself of a greyscale frame, and else the mean of red, green and blue, which the
/// layouts with colour differences are converted to first. The error of any other
/// frame, as text, says which layout it has and which check it did not pass.
#[verifier::external_body]
fn decode_luma(format: PixelFormat, width: u32, height: u32, raw: &Vec<u8>) -> (r: Result<
    Vec<u8>,
    String,
>)
    requires
        decodable(format, width, height, raw@.len()),
    ensures
        match r {
            Ok(plane) => decoded(format, width, height, raw@) == Ok::<Seq<u8>, Seq<char>>(plane@),
            Err(m) => decoded(format, width, height, raw@) == Err::<Seq<u8>, Seq<char>>(m@),
        },
{
    let source = match format {
        PixelFormat::Yuyv => nokhwa::utils::FrameFormat::YUYV,
        PixelFormat::Nv12 => nokhwa::utils::FrameFormat::NV12,
        PixelFormat::Gray => nokhwa::utils::FrameFormat::GRAY,
        PixelFormat::RawRgb => nokhwa::utils::FrameFormat::RAWRGB,
        PixelFormat::RawBgr => nokhwa::utils::FrameFormat::RAWBGR,
    };
    nokhwa::Buffer::new(nokhwa::utils::Resolution::new(width, height), raw.as_slice(), source)
        .decode_image::<nokhwa::pixel_format::LumaFormat>()
        .map(|image| image.into_raw())
        .map_err(|e| e.to_string())
}

/// Each byte three times over.
pub open spec fn tripled(plane: Seq<u8>) -> Seq<u8> {
    Seq::new(3 * plane.len(), |i: int| plane[i / 3])
}

/// What a frame comes to, given the brightness of its pixels or why there is none.
pub open spec fn frame_of(
    r: Result<Frame, FaceAuthError>,
    width: u32,
    height: u32,
    plane: Result<Seq<u8>, Seq<char>>,
) -> bool {
    match plane {
        Ok(p) => r matches Ok(f) && f.shows(width, height, p),
        Err(m) => r matches Err(e) && e@ == ErrorView::Camera(m),
    }
}

/// A frame of the given brightness, each pixel with three equal components.
pub fn luma_frame(width: u32, height: u32, plane: Result<Vec<u8>, String>) -> (r: Result<
    Frame,
    FaceAuthError,
>)
    ensures
        frame_of(
            r,
            width,
            height,
            match plane {
                Ok(p) => Ok(p@),
                Err(m) => Err(m@),
            },
        ),
        plane matches Ok(p) && width * height <= p@.len() ==> r->Ok_0.wf(),
{
    match plane {
        Err(m) => Err(FaceAuthError::Camera(m)),
        Ok(p) => {
            let mut data: Vec<u8> = Vec::new();
            let mut i: usize = 0;
            while i < p.len()
                invariant
                    i <= p.len(),
                    data@.len() == 3 * i,
                    forall|j: int| 0 <= j < 3 * i ==> #[trigger] data@[j] == p@[j / 3],
                decreases p.len() - i,
            {
                let g: u8 = p[i];
                data.push(g);
                data.push(g);
                data.push(g);
                i = i + 1;
            }
            proof {
                assert(data@ =~= tripled(p@));
            }
            Ok(Frame { data, width, height })
        },
    }
}

/// What a camera handed over for one frame.
pub enum Capture {
    /// There is no frame, for this reason.
    Failed(String),
    /// The bytes of an uncompressed frame.
    Raw { format: PixelFormat, width: u32, height: u32, bytes: Vec<u8> },
    /// The brightness of a frame that came compressed, or why it could not be
    /// decompressed.
    Decompressed { width: u32, height: u32, luma: Result<Vec<u8>, String> },
}

/// Whether decoding a frame is safe from failing midway.
pub fn is_decodable(capture: &Capture) -> (r: bool)
    ensures
        r == (match capture {
            Capture::Raw { format, width, height, bytes } => decodable(
                *format,
                *width,
                *height,
                bytes@.len(),
            ),
            _ => true,
        }),
{
    match capture {
        Capture::Raw { format, width, height, bytes } => match format {
            PixelFormat::Yuyv | PixelFormat::Gray => true,
            PixelFormat::RawRgb | PixelFormat::RawBgr => bytes.len() % 3 == 0,
            PixelFormat::Nv12 => {
                let w: u128 = *width as u128;
                let h: u128 = *height as u128;
                proof {
                    assert(0 <= w * h <= 0xffff_ffff * 0xffff_ffff) by (nonlinear_arith)
                        requires
                            0 <= w <= 0xffff_ffff,
                            0 <= h <= 0xffff_ffff,
                    ;
                }
                3 * w <= u32::MAX as u128 && 3 * (w * h) <= u32::MAX as u128 && !(*width == 0
                    && *height % 2 == 0 && bytes.len() == 0)
            },
        },
        _ => true,
    }
}

/// The frame in what a camera handed over, in shades of grey with three equal
/// components for each pixel.
pub fn capture_frame(capture: Capture) -> (r: Result<Frame, FaceAuthError>)
    requires
        capture matches Capture::Raw { format, width, height, bytes } ==> decodable(
            format,
            width,
            height,
            bytes@.len(),
        ),
    ensures
        match capture {
            Capture::Failed(m) => r matches Err(e) && e@ == ErrorView::Camera(m@),
            Capture::Raw { format, width, height, bytes } => {
                &&& frame_of(r, width, height, decoded(format, width, height, bytes@))
                &&& r matches Ok(f) ==> f.wf()
            },
            Capture::Decompressed { width, height, luma } => {
                &&& frame_of(
                    r,
                    width,
                    height,
                    match luma {
                        Ok(p) => Ok(p@),
                        Err(m) => Err(m@),
                    },
                )
                &&& luma matches Ok(p) ==> (width * height <= p@.len() ==> r->Ok_0.wf())
            },
        },
{
    match capture {
        Capture::Failed(m) => Err(FaceAuthError::Camera(m)),
        Capture::Raw { format, width, height, bytes } => luma_frame(
            width,
            height,
            decode_luma(format, width, height, &bytes),
        ),
        Capture::Decompressed { width, height, luma } => luma_frame(width, height, luma),
    }
}

/// What a look at the camera brought.
pub enum Look {
    /// The camera could not be read, for this reason.
    Lost(FaceAuthError),
    /// A frame came that could not be decoded.
    Garbled,
    /// A frame.
    Sight(Frame),
}

/// What a look brought, given the size and the brightness of the frame that came, or
/// why it could not be decoded.
pub open spec fn look_of(
    r: Look,
    width: u32,
    height: u32,
    plane: Result<Seq<u8>, Seq<char>>,
) -> bool {
    match plane {
        Ok(p) => r matches Look::Sight(f) && f.shows(width, height, p),
        Err(_) => r is Garbled,
    }
}

/// What a look at the camera brought, from what the camera handed over. A camera that
/// could not be read is told from a frame that could not be decoded.
pub fn look_at(capture: Capture) -> (r: Look)
    requires
        capture matches Capture::Raw { format, width, height, bytes } ==> decodable(
            format,
            width,
            height,
            bytes@.len(),
        ),
    ensures
        match capture {
            Capture::Failed(m) => r matches Look::Lost(e) && e@ == ErrorView::Camera(m@),
            Capture::Raw { format, width, height, bytes } => {
                &&& look_of(r, width, height, decoded(format, width, height, bytes@))
                &&& r matches Look::Sight(f) ==> f.wf()
            },
            Capture::Decompressed { width, height, luma } => look_of(
                r,
                width,
                height,
                match luma {
                    Ok(p) => Ok(p@),
                    Err(m) => Err(m@),
                },
            ),
        },
{
    let came: bool = match &capture {
        Capture::Failed(_) => false,
        _ => true,
    };
    match capture_frame(capture) {
        Ok(frame) => Look::Sight(frame),
        Err(e) => if came {
            Look::Garbled
        } else {
            Look::Lost(e)
        },
    }
}

// ---------------------------------------------------------------------------
// Laws
// ---------------------------------------------------------------------------

/// A camera has as many points as it shows signs of being an infrared one: that it
/// gives greyscale only, and that one of four words stands in its name.
pub proof fn law_suitability(camera: CameraInfoView)
    ensures
        camera.suitability() == (if camera.greyscale_only {
            1int
        } else {
            0
        }) + (if exists|before: Seq<char>, word: Seq<char>, after: Seq<char>|
            lowercase(camera.name) == #[trigger] (before + word + after) && seq![
                "ir"@,
                "infrared"@,
                "windows hello"@,
                "realsense"@,
            ].contains(word) {
            1int
        } else {
            0
        }),
{
    let lower = lowercase(camera.name);
    let all = seq!["ir"@, "infrared"@, "windows hello"@, "realsense"@];
    law_contains(lower, "ir"@);
    law_contains(lower, "infrared"@);
    law_contains(lower, "windows hello"@);
    law_contains(lower, "realsense"@);
    assert(all[0] == "ir"@ && all[1] == "infrared"@ && all[2] == "windows hello"@ && all[3]
        == "realsense"@);
    if name_hint(lower) {
        let word = if contains(lower, "ir"@) {
            "ir"@
        } else if contains(lower, "infrared"@) {
            "infrared"@
        } else if contains(lower, "windows hello"@) {
            "windows hello"@
        } else {
            "realsense"@
        };
        assert(all.contains(word));
        let (before, after) = choose|before: Seq<char>, after: Seq<char>|
            lower == #[trigger] (before + word + after);
        assert(lower == before + word + after && all.contains(word));
    }
    if exists|before: Seq<char>, word: Seq<char>, after: Seq<char>|
        lower == #[trigger] (before + word + after) && all.contains(word) {
        let (before, word, after) = choose|before: Seq<char>, word: Seq<char>, after: Seq<char>|
            lower == #[trigger] (before + word + after) && all.contains(word);
        let i = choose|i: int| 0 <= i < all.len() && all[i] == word;
        law_contains(lower, word);
        assert(contains(lower, all[i]));
    }
}

/// A device is known by the number behind `video` in its file name, and by nothing
/// else; a link without a target leads to none.
pub proof fn law_video_number(file_name: Seq<char>, rest: Seq<char>, n: u32)
    ensures
        video_number("video"@ + rest) == parse_number(rest),
        video_number("video"@ + decimal(n as nat)) == Some(n),
        video_number(file_name) is Some ==> exists|tail: Seq<char>|
            file_name == #[trigger] ("video"@ + tail),
        target_number(Some("video"@ + decimal(n as nat))) == Some(n),
        target_number(Some(file_name)) == video_number(file_name),
        target_number(None) is None,
{
    law_prefix("video"@, rest, file_name);
    law_prefix("video"@, decimal(n as nat), file_name);
    law_parse_decimal(n);
    if video_number(file_name) is Some {
        let tail = strip_prefix(file_name, "video"@)->0;
        assert(file_name == "video"@ + tail);
    }
}

/// A node that reports capabilities of its own is judged by them alone, any other by
/// those of the whole device.
pub proof fn law_node_capabilities(capabilities: u32, device_caps: u32, other: u32)
    ensures
        capabilities & 0x8000_0000 != 0 ==> node_capabilities(capabilities, device_caps)
            == device_caps,
        capabilities & 0x8000_0000 == 0 ==> node_capabilities(capabilities, device_caps)
            == capabilities && node_capabilities(capabilities, device_caps) == node_capabilities(
            capabilities,
            other,
        ),
        CAP_VIDEO_CAPTURE == 1,
{
}

/// The greyscale formats, by their four characters from the lowest byte on: `GREY`, and
/// `Y01` with the depth behind it, which the highest bit marks as big-endian for the
/// greatest depth only.
pub proof fn law_greyscale_formats(fourcc: u32, a: u8, b: u8, c: u8, d: u8)
    requires
        fourcc == a + 256 * b + 65536 * c + 16777216 * d,
    ensures
        is_greyscale_format(fourcc) <==> (a as char == 'G' && b as char == 'R' && c as char == 'E'
            && d as char == 'Y') || (a as char == 'Y' && b as char == '0' && c as char == '1' && (
        d as char == '0' || d as char == '2' || d as char == '6' || d as int == '6' as int + 128)),
{
    if fourcc == 0x59455247 {
        lemma_bytes_unique(a, b, c, d, 0x47, 0x52, 0x45, 0x59);
    }
    if fourcc == 0x30313059 {
        lemma_bytes_unique(a, b, c, d, 0x59, 0x30, 0x31, 0x30);
    }
    if fourcc == 0x32313059 {
        lemma_bytes_unique(a, b, c, d, 0x59, 0x30, 0x31, 0x32);
    }
    if fourcc == 0x36313059 {
        lemma_bytes_unique(a, b, c, d, 0x59, 0x30, 0x31, 0x36);
    }
    if fourcc == 0xb6313059 {
        lemma_bytes_unique(a, b, c, d, 0x59, 0x30, 0x31, 0xb6);
    }
}

proof fn lemma_bytes_unique(a: u8, b: u8, c: u8, d: u8, e: u8, f: u8, g: u8, h: u8)
    requires
        a + 256 * b + 65536 * c + 16777216 * d == e + 256 * f + 65536 * g + 16777216 * h,
    ensures
        a == e && b == f && c == g && d == h,
{
    assert((a + 256 * (b + 256 * c + 65536 * d)) % 256 == a);
    assert((e + 256 * (f + 256 * g + 65536 * h)) % 256 == e);
    assert((b + 256 * (c + 256 * d)) % 256 == b);
    assert((f + 256 * (g + 256 * h)) % 256 == f);
}

proof fn lemma_filter_push<A>(s: Seq<A>, x: A, p: spec_fn(A) -> bool)
    ensures
        s.push(x).filter(p) == if p(x) {
            s.filter(p).push(x)
        } else {
            s.filter(p)
        },
{
    reveal(Seq::filter);
    assert(s.push(x).drop_last() =~= s);
}

proof fn lemma_insert_keeps_order<A>(s: Seq<A>, x: A, key: spec_fn(A) -> int, k: int)
    ensures
        insert_by_key(s, x, key).filter(|a: A| key(a) == k) == if key(x) == k {
            s.filter(|a: A| key(a) == k).push(x)
        } else {
            s.filter(|a: A| key(a) == k)
        },
    decreases s.len(),
{
    let p = |a: A| key(a) == k;
    if s.len() == 0 || key(s.last()) <= key(x) {
        lemma_filter_push(s, x, p);
    } else {
        let front = s.drop_last();
        lemma_insert_keeps_order(front, x, key, k);
        lemma_filter_push(insert_by_key(front, x, key), s.last(), p);
        lemma_filter_push(front, s.last(), p);
        assert(front.push(s.last()) =~= s);
    }
}

/// Sorting leaves items with the same key in the order they came in.
pub proof fn law_sort_is_stable<A>(s: Seq<A>, key: spec_fn(A) -> int, k: int)
    ensures
        sorted_by_key(s, key).filter(|a: A| key(a) == k) == s.filter(|a: A| key(a) == k),
    decreases s.len(),
{
    let p = |a: A| key(a) == k;
    if s.len() > 0 {
        law_sort_is_stable(s.drop_last(), key, k);
        lemma_insert_keeps_order(sorted_by_key(s.drop_last(), key), s.last(), key, k);
        lemma_filter_push(s.drop_last(), s.last(), p);
        assert(s.drop_last().push(s.last()) =~= s);
    }
}

/// Every entry that captures video and has a device's name is a camera, with that
/// number, the trimmed name and the formats of the entry; no other entry is. The cameras
/// of two lists of entries are those of the one and then those of the other.
pub proof fn law_cameras_of_entries(a: Seq<VideoNode>, b: Seq<VideoNode>, node: VideoNode)
    ensures
        node_cameras(a + b) == node_cameras(a) + node_cameras(b),
        node_cameras(Seq::empty()).len() == 0,
        node.captures ==> (video_number(node.file_name@) matches Some(n) ==> node_cameras(
            seq![node],
        ) == seq![
            CameraInfoView {
                index: n,
                name: match node.name {
                    Some(text) => trim(text@),
                    None => Seq::empty(),
                },
                greyscale_only: node.greyscale_only,
            },
        ]),
        !node.captures || video_number(node.file_name@) is None ==> node_cameras(seq![node]).len()
            == 0,
    decreases b.len(),
{
    assert(seq![node].drop_last() =~= Seq::empty());
    assert(seq![node].last() == node);
    assert(node_cameras(Seq::<VideoNode>::empty()) =~= Seq::empty());
    assert(node_cameras(seq![node].drop_last()) =~= Seq::empty());
    match node_camera(node) {
        Some(camera) => {
            assert(node_cameras(seq![node]) =~= seq![camera]);
        },
        None => {
            assert(node_cameras(seq![node]) =~= Seq::empty());
        },
    }
    if b.len() > 0 {
        law_cameras_of_entries(a, b.drop_last(), node);
        assert((a + b).drop_last() =~= a + b.drop_last());
        assert((a + b).last() == b.last());
        assert(node_cameras(a + b) =~= node_cameras(a) + node_cameras(b));
    } else {
        assert(a + b =~= a);
        assert(node_cameras(a) + node_cameras(b) =~= node_cameras(a));
    }
}

/// Every link that leads to a device is listed with its name and that device; no other
/// is. The links of two lists are those of the one and then those of the other.
pub proof fn law_links_of_directory(a: Seq<DeviceLink>, b: Seq<DeviceLink>, link: DeviceLink)
    ensures
        resolved_links(a + b) == resolved_links(a) + resolved_links(b),
        resolved_links(Seq::empty()).len() == 0,
        link.target matches Some(t) ==> (video_number(t@) matches Some(n) ==> resolved_links(
            seq![link],
        ) == seq![(link.name@, n)]),
        (link.target matches Some(t) ==> video_number(t@) is None) ==> resolved_links(
            seq![link],
        ).len() == 0,
    decreases b.len(),
{
    assert(seq![link].drop_last() =~= Seq::empty());
    assert(seq![link].last() == link);
    assert(resolved_links(Seq::<DeviceLink>::empty()) =~= Seq::empty());
    assert(resolved_links(seq![link].drop_last()) =~= Seq::empty());
    match target_number(link.target.deep_view()) {
        Some(index) => {
            assert(resolved_links(seq![link]) =~= seq![(link.name@, index)]);
        },
        None => {
            assert(resolved_links(seq![link]) =~= Seq::empty());
        },
    }
    if b.len() > 0 {
        law_links_of_directory(a, b.drop_last(), link);
        assert((a + b).drop_last() =~= a + b.drop_last());
        assert((a + b).last() == b.last());
        assert(resolved_links(a + b) =~= resolved_links(a) + resolved_links(b));
    } else {
        assert(a + b =~= a);
        assert(resolved_links(a) + resolved_links(b) =~= resolved_links(a));
    }
}

/// The name recorded for a device is that of the first link that leads to it, however
/// many lead elsewhere before; there is none only if no link leads to it.
pub proof fn law_first_name(links: Seq<(Seq<char>, u32)>, k: int, index: u32)
    ensures
        0 <= k < links.len() && links[k].1 == index && (forall|j: int|
            0 <= j < k ==> (#[trigger] links[j]).1 != index) ==> first_name(links, index) == Some(
            links[k].0,
        ),
        first_name(links, index) is None <==> forall|j: int|
            0 <= j < links.len() ==> (#[trigger] links[j]).1 != index,
    decreases links.len(),
{
    if links.len() > 0 {
        let rest = links.drop_first();
        law_first_name(rest, k - 1, index);
        if links[0].1 != index {
            if 0 <= k < links.len() && links[k].1 == index && (forall|j: int|
                0 <= j < k ==> (#[trigger] links[j]).1 != index) {
                assert(rest[k - 1] == links[k]);
                assert forall|j: int| 0 <= j < k - 1 implies (#[trigger] rest[j]).1 != index by {
                    assert(links[j + 1].1 != index);
                }
            }
            if first_name(links, index) is None {
                assert forall|j: int| 0 <= j < links.len() implies (#[trigger] links[j]).1
                    != index by {
                    if j > 0 {
                        assert(rest[j - 1].1 != index);
                    }
                }
            } else if forall|j: int| 0 <= j < links.len() ==> (#[trigger] links[j]).1 != index {
                assert forall|j: int| 0 <= j < rest.len() implies (#[trigger] rest[j]).1
                    != index by {
                    assert(links[j + 1].1 != index);
                }
            }
        } else if k > 0 && (forall|j: int| 0 <= j < k ==> (#[trigger] links[j]).1 != index) {
            assert(links[0].1 != index);
        }
    }
}

/// Whenever a stable name leads to a device, the camera is looked for there: by the
/// serial number first, then by the port, whether or not there is a serial number. The
/// stored number is used only where neither name leads anywhere, and then always.
pub proof fn law_stored_number_is_last_resort(
    id: CameraIdView,
    by_id: Option<Seq<char>>,
    by_path: Option<Seq<char>>,
    n: u32,
)
    ensures
        id.by_id is Some && by_id == Some("video"@ + decimal(n as nat)) ==> resolved_index(
            id,
            by_id,
            by_path,
        ) == n,
        (id.by_id is None || by_id is None || video_number(by_id->0) is None) && id.by_path is Some
            && by_path == Some("video"@ + decimal(n as nat)) ==> resolved_index(id, by_id, by_path)
            == n,
        (id.by_id is None || by_id is None || video_number(by_id->0) is None) && (id.by_path is None
            || by_path is None || video_number(by_path->0) is None) ==> resolved_index(
            id,
            by_id,
            by_path,
        ) == id.index,
{
    law_video_number("video"@, Seq::empty(), n);
}

/// Each brightness becomes one pixel of three equal bytes, in its place.
pub proof fn law_pixels_are_grey(plane: Seq<u8>, i: int)
    requires
        0 <= i < plane.len(),
    ensures
        tripled(plane).len() == 3 * plane.len(),
        tripled(plane)[3 * i] == plane[i],
        tripled(plane)[3 * i + 1] == plane[i],
        tripled(plane)[3 * i + 2] == plane[i],
{
}

/// A camera is told by its number, its name and whether it gives greyscale only.
pub proof fn law_camera_infos_by_contents(a: CameraInfo, b: CameraInfo)
    ensures
        a@ == b@ ==> a.index == b.index && a.name@ == b.name@ && a.greyscale_only
            == b.greyscale_only,
{
}

/// A look brings a frame exactly if decoding gave one, with its size and three equal
/// bytes for each brightness; a frame that could not be decoded is not taken for a camera
/// that could not be read.
pub proof fn law_look(
    r: Look,
    f: Result<Frame, FaceAuthError>,
    width: u32,
    height: u32,
    plane: Result<Seq<u8>, Seq<char>>,
    i: int,
)
    ensures
        look_of(r, width, height, plane) ==> (r is Sight <==> plane is Ok) && (r is Garbled
            <==> plane is Err) && (r matches Look::Sight(frame) ==> frame.width == width
            && frame.height == height && frame.data@.len() == 3 * plane->Ok_0.len() && (0 <= i
            < frame.data@.len() ==> frame.data@[i] == plane->Ok_0[i / 3])),
        frame_of(f, width, height, plane) ==> (f is Ok <==> plane is Ok) && (f matches Ok(frame)
            ==> frame.width == width && frame.height == height && frame.data@.len() == 3
            * plane->Ok_0.len() && (0 <= i < frame.data@.len() ==> frame.data@[i] == plane->Ok_0[i
            / 3])) && (f matches Err(e) ==> e@ == ErrorView::Camera(plane->Err_0)),
{
}

/// Which frames decoding must not be tried on: colour triples with a rest, planar frames
/// whose size does not fit 32 bits, and an empty planar frame of no width. Every other is
/// accepted or refused.
pub proof fn law_decodable(width: u32, height: u32, k: nat, len: nat)
    ensures
        decodable(PixelFormat::Gray, width, height, len),
        decodable(PixelFormat::Yuyv, width, height, len),
        decodable(PixelFormat::RawRgb, width, height, 3 * k),
        decodable(PixelFormat::RawBgr, width, height, 3 * k),
        !decodable(PixelFormat::RawRgb, width, height, 3 * k + 1),
        !decodable(PixelFormat::RawRgb, width, height, 3 * k + 2),
        !decodable(PixelFormat::RawBgr, width, height, 3 * k + 1),
        !decodable(PixelFormat::RawBgr, width, height, 3 * k + 2),
        !decodable(PixelFormat::Nv12, width, height, len) <==> width > 0x5555_5555 || width * height
            > 0x5555_5555 || (width == 0 && height % 2 == 0 && len == 0),
{
}

}
