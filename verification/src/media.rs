//! The display-item model: what can be projected on the output window, its
//! operator-facing labels, and the staged/live selection that the manual "go
//! live" surface drives.
//!
//! Persistence of media, schedules, songs and scenes is an external
//! collaborator of the pipeline (plain file CRUD); the types it exchanges and
//! every decision about them — classification by extension, label text,
//! staging — live here.

use vstd::prelude::*;
use vstd::string::StringSliceAdditionalSpecFns;
use crate::store::Verse;

verus! {

/// Classification of a media file.
#[derive(Clone, Copy, Debug, PartialEq, Eq, Structural)]
pub enum MediaItemType {
    Image,
    Video,
}

/// A media file of the library folder.
#[derive(Debug)]
pub struct MediaItem {
    pub id: String,
    pub name: String,
    pub path: String,
    pub media_type: MediaItemType,
    pub thumbnail_path: Option<String>,
    /// How the media fills the output frame: "contain" | "cover" | "fill".
    pub fit_mode: String,
}

/// A slide-show file stored in the presentations directory.
#[derive(Debug)]
pub struct PresentationFile {
    pub id: String,
    pub name: String,
    pub path: String,
    /// Slide count once known; zero until determined.
    pub slide_count: u32,
}

/// Payload carried when a specific presentation slide goes live.
#[derive(Debug)]
pub struct PresentationSlideData {
    pub presentation_id: String,
    pub presentation_name: String,
    pub presentation_path: String,
    /// Zero-based slide index.
    pub slide_index: u32,
    pub slide_count: u32,
}

/// Payload carried when a custom studio slide goes live.  (Styling detail —
/// fonts, zones, element geometry — is presentation-layer data kept outside
/// the pipeline; this is what its decisions read.)
#[derive(Debug)]
pub struct CustomSlideData {
    pub presentation_id: String,
    pub presentation_name: String,
    /// Zero-based slide index.
    pub slide_index: u32,
    pub slide_count: u32,
    pub background_color: String,
    pub background_image: Option<String>,
}

/// A live camera feed: local device or LAN stream.
#[derive(Debug)]
pub struct CameraFeedData {
    pub device_id: String,
    pub label: String,
    /// True for a LAN stream from a mobile device.
    pub lan: bool,
    /// Human-readable name for LAN sources (empty for local cameras).
    pub device_name: String,
}

/// A timer / clock overlay item.
#[derive(Debug)]
pub struct TimerData {
    /// "countdown" | "countup" | "clock".
    pub timer_type: String,
    /// Countdown only: total duration in seconds.
    pub duration_secs: Option<u32>,
    /// Optional text label shown below the time.
    pub label: Option<String>,
    /// Unix milliseconds when the timer was started.
    pub started_at: Option<u64>,
}

/// A scene, reduced to what the pipeline reads of it (the full scene value
/// is presentation-layer data).
#[derive(Debug)]
pub struct SceneData {
    pub name: Option<String>,
}

/// One song slide's lines and identity.
#[derive(Debug)]
pub struct SongSlideData {
    pub song_id: String,
    pub title: String,
    pub author: Option<String>,
    pub section_label: String,
    pub lines: Vec<String>,
    pub slide_index: u32,
    pub total_slides: u32,
}

/// A section of lyrics.
#[derive(Debug)]
pub struct LyricSection {
    pub label: String,
    pub lines: Vec<String>,
}

/// Lower-third overlay: a name plate.
#[derive(Debug)]
pub struct LowerThirdNameplate {
    pub name: String,
    pub title: Option<String>,
}

/// Lower-third overlay: one or two lyric lines.
#[derive(Debug)]
pub struct LowerThirdLyrics {
    pub line1: String,
    pub line2: Option<String>,
    pub section_label: Option<String>,
}

/// Lower-third overlay: free text.
#[derive(Debug)]
pub struct LowerThirdFreeText {
    pub text: String,
}

/// The lower-third overlay payloads.
#[derive(Debug)]
pub enum LowerThirdData {
    Nameplate(LowerThirdNameplate),
    Lyrics(LowerThirdLyrics),
    FreeText(LowerThirdFreeText),
}

/// A schedule entry with a stable identifier.
#[derive(Debug)]
pub struct ScheduleEntry {
    pub id: String,
    pub item: DisplayItem,
}

/// An ordered schedule of display items.
#[derive(Debug)]
pub struct Schedule {
    pub id: String,
    pub name: String,
    pub items: Vec<ScheduleEntry>,
}

/// Summary of a saved service.
#[derive(Debug)]
pub struct ServiceMeta {
    pub id: String,
    pub name: String,
    pub item_count: usize,
    /// Unix milliseconds of the last write.
    pub updated_at: u64,
}

/// What is currently displayed: a tagged union, matched exhaustively for
/// labels and transport.
#[derive(Debug)]
pub enum DisplayItem {
    Verse(Verse),
    Media(MediaItem),
    PresentationSlide(PresentationSlideData),
    CustomSlide(CustomSlideData),
    CameraFeed(CameraFeedData),
    Scene(SceneData),
    Timer(TimerData),
    Song(SongSlideData),
}

impl Clone for MediaItem {
    fn clone(&self) -> (r: Self)
        ensures
            r == *self,
    {
        MediaItem {
            id: self.id.clone(),
            name: self.name.clone(),
            path: self.path.clone(),
            media_type: self.media_type,
            thumbnail_path: clone_opt_string(&self.thumbnail_path),
            fit_mode: self.fit_mode.clone(),
        }
    }
}

impl Clone for PresentationFile {
    fn clone(&self) -> (r: Self)
        ensures
            r == *self,
    {
        PresentationFile {
            id: self.id.clone(),
            name: self.name.clone(),
            path: self.path.clone(),
            slide_count: self.slide_count,
        }
    }
}

impl Clone for PresentationSlideData {
    fn clone(&self) -> (r: Self)
        ensures
            r == *self,
    {
        PresentationSlideData {
            presentation_id: self.presentation_id.clone(),
            presentation_name: self.presentation_name.clone(),
            presentation_path: self.presentation_path.clone(),
            slide_index: self.slide_index,
            slide_count: self.slide_count,
        }
    }
}

impl Clone for CustomSlideData {
    fn clone(&self) -> (r: Self)
        ensures
            r == *self,
    {
        CustomSlideData {
            presentation_id: self.presentation_id.clone(),
            presentation_name: self.presentation_name.clone(),
            slide_index: self.slide_index,
            slide_count: self.slide_count,
            background_color: self.background_color.clone(),
            background_image: clone_opt_string(&self.background_image),
        }
    }
}

impl Clone for CameraFeedData {
    fn clone(&self) -> (r: Self)
        ensures
            r == *self,
    {
        CameraFeedData {
            device_id: self.device_id.clone(),
            label: self.label.clone(),
            lan: self.lan,
            device_name: self.device_name.clone(),
        }
    }
}

impl Clone for TimerData {
    fn clone(&self) -> (r: Self)
        ensures
            r == *self,
    {
        TimerData {
            timer_type: self.timer_type.clone(),
            duration_secs: self.duration_secs,
            label: clone_opt_string(&self.label),
            started_at: self.started_at,
        }
    }
}

impl Clone for SceneData {
    fn clone(&self) -> (r: Self)
        ensures
            r == *self,
    {
        SceneData { name: clone_opt_string(&self.name) }
    }
}

/// Equality of song payloads up to vector identity: all fields equal, the
/// lines compared as sequences.
pub open spec fn spec_same_song(a: SongSlideData, b: SongSlideData) -> bool {
    &&& a.song_id == b.song_id
    &&& a.title == b.title
    &&& a.author == b.author
    &&& a.section_label == b.section_label
    &&& a.lines@ == b.lines@
    &&& a.slide_index == b.slide_index
    &&& a.total_slides == b.total_slides
}

/// Equality of display items up to vector identity (only song payloads
/// carry a vector).
pub open spec fn spec_same_item(a: DisplayItem, b: DisplayItem) -> bool {
    match (a, b) {
        (DisplayItem::Song(x), DisplayItem::Song(y)) => spec_same_song(x, y),
        _ => a == b,
    }
}

pub open spec fn spec_same_opt_item(a: Option<DisplayItem>, b: Option<DisplayItem>) -> bool {
    match (a, b) {
        (Some(x), Some(y)) => spec_same_item(x, y),
        (None, None) => true,
        _ => false,
    }
}

/// Items equal up to vector identity have the same label.
pub proof fn lemma_same_item_label(a: DisplayItem, b: DisplayItem)
    requires
        spec_same_item(a, b),
    ensures
        spec_label(a) == spec_label(b),
        spec_label_wf(a) == spec_label_wf(b),
{
}

impl Clone for SongSlideData {
    fn clone(&self) -> (r: Self)
        ensures
            spec_same_song(r, *self),
    {
        SongSlideData {
            song_id: self.song_id.clone(),
            title: self.title.clone(),
            author: clone_opt_string(&self.author),
            section_label: self.section_label.clone(),
            lines: clone_strings(&self.lines),
            slide_index: self.slide_index,
            total_slides: self.total_slides,
        }
    }
}

impl Clone for DisplayItem {
    fn clone(&self) -> (r: Self)
        ensures
            spec_same_item(r, *self),
    {
        match self {
            DisplayItem::Verse(v) => DisplayItem::Verse(v.clone()),
            DisplayItem::Media(m) => DisplayItem::Media(m.clone()),
            DisplayItem::PresentationSlide(p) => DisplayItem::PresentationSlide(p.clone()),
            DisplayItem::CustomSlide(c) => DisplayItem::CustomSlide(c.clone()),
            DisplayItem::CameraFeed(c) => DisplayItem::CameraFeed(c.clone()),
            DisplayItem::Scene(s) => DisplayItem::Scene(s.clone()),
            DisplayItem::Timer(t) => DisplayItem::Timer(t.clone()),
            DisplayItem::Song(s) => DisplayItem::Song(s.clone()),
        }
    }
}

/// Clones an optional string, preserving its value.
fn clone_opt_string(s: &Option<String>) -> (r: Option<String>)
    ensures
        r == *s,
{
    match s {
        Some(x) => Some(x.clone()),
        None => None,
    }
}

/// Clones a string vector, preserving its value.
fn clone_strings(v: &Vec<String>) -> (r: Vec<String>)
    ensures
        r@ == v@,
{
    let mut out: Vec<String> = Vec::new();
    let mut i: usize = 0;
    while i < v.len()
        invariant
            i <= v@.len(),
            out@ == v@.subrange(0, i as int),
        decreases v@.len() - i,
    {
        out.push(v[i].clone());
        i = i + 1;
        proof {
            assert(out@ =~= v@.subrange(0, i as int));
        }
    }
    proof {
        assert(v@.subrange(0, v@.len() as int) =~= v@);
    }
    out
}

/// The decimal digit character of `d`.
pub open spec fn spec_digit_char(d: int) -> char {
    if d == 0 {
        '0'
    } else if d == 1 {
        '1'
    } else if d == 2 {
        '2'
    } else if d == 3 {
        '3'
    } else if d == 4 {
        '4'
    } else if d == 5 {
        '5'
    } else if d == 6 {
        '6'
    } else if d == 7 {
        '7'
    } else if d == 8 {
        '8'
    } else {
        '9'
    }
}

/// Decimal rendering of a non-negative number, most significant digit
/// first.
pub open spec fn spec_dec_digits(n: int) -> Seq<char>
    decreases n,
    when n >= 0
{
    if n < 10 {
        seq![spec_digit_char(n)]
    } else {
        spec_dec_digits(n / 10).push(spec_digit_char(n % 10))
    }
}

/// One decimal digit as a string slice.
fn digit_str(d: u32) -> (r: &'static str)
    requires
        d < 10,
    ensures
        r@ == seq![spec_digit_char(d as int)],
{
    proof {
        reveal_strlit("0");
        reveal_strlit("1");
        reveal_strlit("2");
        reveal_strlit("3");
        reveal_strlit("4");
        reveal_strlit("5");
        reveal_strlit("6");
        reveal_strlit("7");
        reveal_strlit("8");
        reveal_strlit("9");
    }
    let r = match d {
        0 => "0",
        1 => "1",
        2 => "2",
        3 => "3",
        4 => "4",
        5 => "5",
        6 => "6",
        7 => "7",
        8 => "8",
        _ => "9",
    };
    proof {
        assert(r@ =~= seq![spec_digit_char(d as int)]);
    }
    r
}

/// Renders a number in decimal.
pub fn dec_string(n: u32) -> (r: String)
    ensures
        r@ == spec_dec_digits(n as int),
    decreases n,
{
    if n < 10 {
        digit_str(n).to_owned()
    } else {
        let mut s = dec_string(n / 10);
        s.append(digit_str(n % 10));
        proof {
            assert(s@ =~= spec_dec_digits(n as int));
        }
        s
    }
}

/// Labels are only defined for items whose numbers can be rendered: verse
/// locators are non-negative and slide indexes have room for the one-based
/// display form.
pub open spec fn spec_label_wf(item: DisplayItem) -> bool {
    match item {
        DisplayItem::Verse(v) => v.chapter >= 0 && v.verse >= 0,
        DisplayItem::PresentationSlide(p) => p.slide_index < u32::MAX,
        DisplayItem::CustomSlide(c) => c.slide_index < u32::MAX,
        _ => true,
    }
}

/// The operator-facing label of a display item.
pub open spec fn spec_label(item: DisplayItem) -> Seq<char>
    recommends
        spec_label_wf(item),
{
    match item {
        DisplayItem::Verse(v) => v.book@ + " "@ + spec_dec_digits(v.chapter as int) + ":"@
            + spec_dec_digits(v.verse as int),
        DisplayItem::Media(m) => m.name@,
        DisplayItem::PresentationSlide(p) => p.presentation_name@ + " – slide "@
            + spec_dec_digits(p.slide_index + 1),
        DisplayItem::CustomSlide(c) => c.presentation_name@ + " – slide "@ + spec_dec_digits(
            c.slide_index + 1,
        ),
        DisplayItem::CameraFeed(cam) => if cam.label@.len() > 0 {
            cam.label@
        } else if cam.device_name@.len() > 0 {
            cam.device_name@
        } else {
            cam.device_id@
        },
        DisplayItem::Scene(s) => match s.name {
            Some(n) => n@,
            None => "Scene"@,
        },
        DisplayItem::Timer(t) => match t.label {
            Some(l) => if l@.len() > 0 {
                l@
            } else {
                "Timer: "@ + t.timer_type@
            },
            None => "Timer: "@ + t.timer_type@,
        },
        DisplayItem::Song(s) => s.title@ + " ("@ + s.section_label@ + ")"@,
    }
}

impl DisplayItem {
    /// The short label shown for this item in schedules and stage displays.
    pub fn to_label(&self) -> (r: String)
        requires
            spec_label_wf(*self),
        ensures
            r@ == spec_label(*self),
    {
        match self {
            DisplayItem::Verse(v) => {
                let mut s = v.book.clone();
                s.append(" ");
                s.append(dec_string(v.chapter as u32).as_str());
                s.append(":");
                s.append(dec_string(v.verse as u32).as_str());
                s
            },
            DisplayItem::Media(m) => m.name.clone(),
            DisplayItem::PresentationSlide(p) => {
                let mut s = p.presentation_name.clone();
                s.append(" – slide ");
                s.append(dec_string(p.slide_index + 1).as_str());
                s
            },
            DisplayItem::CustomSlide(c) => {
                let mut s = c.presentation_name.clone();
                s.append(" – slide ");
                s.append(dec_string(c.slide_index + 1).as_str());
                s
            },
            DisplayItem::CameraFeed(cam) => {
                if cam.label.as_str().unicode_len() > 0 {
                    cam.label.clone()
                } else if cam.device_name.as_str().unicode_len() > 0 {
                    cam.device_name.clone()
                } else {
                    cam.device_id.clone()
                }
            },
            DisplayItem::Scene(sc) => match &sc.name {
                Some(n) => n.clone(),
                None => "Scene".to_owned(),
            },
            DisplayItem::Timer(t) => match &t.label {
                Some(l) => {
                    if l.as_str().unicode_len() > 0 {
                        l.clone()
                    } else {
                        let mut s = "Timer: ".to_owned();
                        s.append(t.timer_type.as_str());
                        s
                    }
                },
                None => {
                    let mut s = "Timer: ".to_owned();
                    s.append(t.timer_type.as_str());
                    s
                },
            },
            DisplayItem::Song(sg) => {
                let mut s = sg.title.clone();
                s.append(" (");
                s.append(sg.section_label.as_str());
                s.append(")");
                s
            },
        }
    }
}

/// Classification of a media file extension (already lower-cased).
pub open spec fn spec_classify(ext: Seq<u8>) -> Option<MediaItemType> {
    if ext == "jpg".spec_bytes() || ext == "jpeg".spec_bytes() || ext == "png".spec_bytes() || ext
        == "gif".spec_bytes() || ext == "webp".spec_bytes() || ext == "bmp".spec_bytes() || ext
        == "svg".spec_bytes() {
        Some(MediaItemType::Image)
    } else if ext == "mp4".spec_bytes() || ext == "webm".spec_bytes() || ext
        == "mov".spec_bytes() || ext == "mkv".spec_bytes() || ext == "avi".spec_bytes() {
        Some(MediaItemType::Video)
    } else {
        None
    }
}

/// Classifies a lower-cased file extension as image, video, or unsupported.
pub fn classify_extension(ext: &str) -> (r: Option<MediaItemType>)
    ensures
        r == spec_classify(ext.spec_bytes()),
{
    let b = ext.as_bytes();
    if crate::text::bytes_eq(b, "jpg".as_bytes()) || crate::text::bytes_eq(b, "jpeg".as_bytes())
        || crate::text::bytes_eq(b, "png".as_bytes()) || crate::text::bytes_eq(
        b,
        "gif".as_bytes(),
    ) || crate::text::bytes_eq(b, "webp".as_bytes()) || crate::text::bytes_eq(
        b,
        "bmp".as_bytes(),
    ) || crate::text::bytes_eq(b, "svg".as_bytes()) {
        Some(MediaItemType::Image)
    } else if crate::text::bytes_eq(b, "mp4".as_bytes()) || crate::text::bytes_eq(
        b,
        "webm".as_bytes(),
    ) || crate::text::bytes_eq(b, "mov".as_bytes()) || crate::text::bytes_eq(
        b,
        "mkv".as_bytes(),
    ) || crate::text::bytes_eq(b, "avi".as_bytes()) {
        Some(MediaItemType::Video)
    } else {
        None
    }
}

/// A stored fill mode is honoured only when it is one of the three known
/// modes; anything else falls back to the default.
pub open spec fn spec_sanitize_fit_mode(raw: Option<&str>) -> Seq<char> {
    match raw {
        Some(s) => if s.spec_bytes() == "contain".spec_bytes() || s.spec_bytes()
            == "cover".spec_bytes() || s.spec_bytes() == "fill".spec_bytes() {
            s@
        } else {
            "contain"@
        },
        None => "contain"@,
    }
}

/// Validates a fill mode read back from storage: unknown values fall back
/// to the default.
pub fn sanitize_fit_mode(raw: Option<&str>) -> (r: String)
    ensures
        r@ == spec_sanitize_fit_mode(raw),
{
    match raw {
        Some(s) => {
            if crate::text::bytes_eq(s.as_bytes(), "contain".as_bytes()) || crate::text::bytes_eq(
                s.as_bytes(),
                "cover".as_bytes(),
            ) || crate::text::bytes_eq(s.as_bytes(), "fill".as_bytes()) {
                s.to_owned()
            } else {
                default_media_fit_mode()
            }
        },
        None => default_media_fit_mode(),
    }
}

/// Default fill mode of a media item on the output frame.
pub fn default_media_fit_mode() -> (r: String)
    ensures
        r@ == "contain"@,
{
    "contain".to_owned()
}

/// Custom slides show their header zone unless switched off.
pub fn default_header_enabled() -> (r: bool)
    ensures
        r == true,
{
    true
}

/// Video backgrounds loop and stay muted unless configured otherwise.
pub fn vbg_default_true() -> (r: bool)
    ensures
        r == true,
{
    true
}

/// Video backgrounds cover the output frame by default.
pub fn vbg_default_cover() -> (r: String)
    ensures
        r@ == "cover"@,
{
    "cover".to_owned()
}

/// Default font family of the translation tag.
pub fn default_version_font() -> (r: String)
    ensures
        r@ == "Arial, sans-serif"@,
{
    "Arial, sans-serif".to_owned()
}

/// Default slide transition animation.
pub fn default_transition() -> (r: String)
    ensures
        r@ == "fade"@,
{
    "fade".to_owned()
}

/// Default font family of the verse text body.
pub fn default_verse_font_family() -> (r: String)
    ensures
        r@ == "Georgia, serif"@,
{
    "Georgia, serif".to_owned()
}

/// Default font family of the reference line.
pub fn default_reference_font_family() -> (r: String)
    ensures
        r@ == "Arial, sans-serif"@,
{
    "Arial, sans-serif".to_owned()
}

/// A published result event: the operator-facing text, the item, the
/// confidence in thousandths and the source tag ("manual" for
/// operator-chosen items, "auto" for pipeline detections).
#[derive(Debug)]
pub struct PublishedUpdate {
    pub text: String,
    pub item: Option<DisplayItem>,
    pub confidence_milli: u32,
    pub source: String,
}

/// The staged and live display items of the operator surface.
pub struct LiveState {
    staged: Option<DisplayItem>,
    live: Option<DisplayItem>,
}

impl LiveState {
    pub closed spec fn spec_staged(self) -> Option<DisplayItem> {
        self.staged
    }

    pub closed spec fn spec_live(self) -> Option<DisplayItem> {
        self.live
    }

    pub fn new() -> (r: LiveState)
        ensures
            r.spec_staged() is None,
            r.spec_live() is None,
    {
        LiveState { staged: None, live: None }
    }

    /// Stages an item for the next "go live".
    pub fn stage_item(&mut self, item: DisplayItem)
        ensures
            final(self).spec_staged() == Some(item),
            final(self).spec_live() == old(self).spec_live(),
    {
        self.staged = Some(item);
    }

    pub fn get_staged_item(&self) -> (r: Option<DisplayItem>)
        ensures
            spec_same_opt_item(r, self.spec_staged()),
    {
        match &self.staged {
            Some(item) => Some(item.clone()),
            None => None,
        }
    }

    pub fn get_current_item(&self) -> (r: Option<DisplayItem>)
        ensures
            spec_same_opt_item(r, self.spec_live()),
    {
        match &self.live {
            Some(item) => Some(item.clone()),
            None => None,
        }
    }

    /// Publishes the staged item: it becomes live and an update with full
    /// confidence and the manual source tag is emitted.  With nothing
    /// staged, nothing happens.
    pub fn go_live(&mut self) -> (r: Option<PublishedUpdate>)
        requires
            match old(self).spec_staged() {
                Some(item) => spec_label_wf(item),
                None => true,
            },
        ensures
            final(self).spec_staged() == old(self).spec_staged(),
            match old(self).spec_staged() {
                Some(item) => {
                    &&& spec_same_opt_item(final(self).spec_live(), Some(item))
                    &&& (r matches Some(u) && u.text@ == spec_label(item) && (u.item matches Some(
                        it,
                    ) && spec_same_item(it, item)) && u.confidence_milli == 1000 && u.source@
                        == "manual"@)
                },
                None => final(self).spec_live() == old(self).spec_live() && r is None,
            },
    {
        let staged = match &self.staged {
            Some(item) => item.clone(),
            None => {
                return None;
            },
        };
        proof {
            match old(self).spec_staged() {
                Some(item) => lemma_same_item_label(staged, item),
                None => (),
            }
        }
        let text = staged.to_label();
        self.live = Some(staged.clone());
        Some(
            PublishedUpdate {
                text,
                item: Some(staged),
                confidence_milli: 1000,
                source: "manual".to_owned(),
            },
        )
    }

    /// Clears the live item, emitting an empty manual update.
    pub fn clear_live(&mut self) -> (r: PublishedUpdate)
        ensures
            final(self).spec_live() is None,
            final(self).spec_staged() == old(self).spec_staged(),
            r.text@ == Seq::<char>::empty(),
            r.item is None,
            r.confidence_milli == 1000,
            r.source@ == "manual"@,
    {
        self.live = None;
        PublishedUpdate {
            text: String::new(),
            item: None,
            confidence_milli: 1000,
            source: "manual".to_owned(),
        }
    }

    /// Restamps the currently-live timer so all windows tick from the same
    /// reference point; items other than a live timer are left alone.
    pub fn update_timer(&mut self, started_at: Option<u64>) -> (r: Option<PublishedUpdate>)
        ensures
            final(self).spec_staged() == old(self).spec_staged(),
            match old(self).spec_live() {
                Some(DisplayItem::Timer(t)) => {
                    &&& final(self).spec_live() == Some(
                        DisplayItem::Timer(TimerData { started_at, ..t }),
                    )
                    &&& (r matches Some(u) && u.text@ == "Timer: "@ + t.timer_type@ && u.item
                        == final(self).spec_live() && u.confidence_milli == 1000 && u.source@
                        == "manual"@)
                },
                _ => final(self).spec_live() == old(self).spec_live() && r is None,
            },
    {
        let timer = match &self.live {
            Some(DisplayItem::Timer(t)) => TimerData {
                timer_type: t.timer_type.clone(),
                duration_secs: t.duration_secs,
                label: clone_opt_string(&t.label),
                started_at,
            },
            _ => {
                return None;
            },
        };
        let mut text = "Timer: ".to_owned();
        text.append(timer.timer_type.as_str());
        let item = DisplayItem::Timer(timer);
        self.live = Some(item.clone());
        Some(
            PublishedUpdate {
                text,
                item: Some(item),
                confidence_milli: 1000,
                source: "manual".to_owned(),
            },
        )
    }
}

} // verus!
