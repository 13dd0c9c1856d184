//! The display item and what the host asks of it.
use crate::text::concat;
#[allow(unused_imports)]
use crate::text::str_of;
use crate::wide::to_utf16_nul;
#[allow(unused_imports)]
use crate::wide::{
    decoded, units_are_those_of_the_characters, utf16, wide, wide_text_reads_back,
};
use vstd::prelude::*;
use vstd::slice::slice_subrange;

verus! {

/// The name of the item in the host's settings.
pub const ITEM_NAME: &'static str = "落地IP";

/// The identifier of the item.
pub const ITEM_ID: &'static str = "ipdetect.landing_ip";

/// The label that the host would draw. The item draws its own, so that there is none.
pub const ITEM_LABEL: &'static str = "";

/// The longest text of the item, by which its width is measured.
pub const ITEM_SAMPLE: &'static str = "出口IP  JP  255.255.255.255";

/// What stands before the address.
pub const ITEM_LEAD: &'static str = "出口IP  ";

/// The width of the item at 96 DPI where it cannot be measured.
pub const ITEM_FALLBACK_WIDTH: i32 = 190;

/// What is left free at both sides of the text.
pub const ITEM_HORIZONTAL_PADDING: i32 = 4;

/// The version of the plugin interface.
pub const API_VERSION: i32 = 7;

/// The answer to a request for an options dialog: there is none.
pub const OPTIONS_NOT_PROVIDED: i32 = 2;

/// Units that end with a zero.
pub open spec fn ends_with_nul(units: Seq<u16>) -> bool {
    units.len() > 0 && units.last() == 0
}

/// The display item: its texts, as the host reads them.
#[derive(Debug)]
pub struct PluginItem {
    pub name_w: Vec<u16>,
    pub id_w: Vec<u16>,
    pub label_w: Vec<u16>,
    pub sample_w: Vec<u16>,
    /// The text that is shown, with the address found last.
    pub value_w: Vec<u16>,
}

impl PluginItem {
    /// Every text that the host may read ends with a zero.
    pub open spec fn well_formed(&self) -> bool {
        &&& ends_with_nul(self.name_w@)
        &&& ends_with_nul(self.id_w@)
        &&& ends_with_nul(self.label_w@)
        &&& ends_with_nul(self.sample_w@)
        &&& ends_with_nul(self.value_w@)
    }

    /// The texts of the item before the first probe is over.
    pub open spec fn is_initial(&self) -> bool {
        &&& self.name_w@ == wide("落地IP"@)
        &&& self.id_w@ == wide("ipdetect.landing_ip"@)
        &&& self.label_w@ == wide(""@)
        &&& self.sample_w@ == wide("出口IP  JP  255.255.255.255"@)
        &&& self.value_w@ == wide("出口IP  …"@)
    }

    /// The item before the first probe is over.
    pub fn new() -> (item: PluginItem)
        ensures
            item.is_initial(),
            item.well_formed(),
    {
        PluginItem {
            name_w: to_utf16_nul(ITEM_NAME),
            id_w: to_utf16_nul(ITEM_ID),
            label_w: to_utf16_nul(ITEM_LABEL),
            sample_w: to_utf16_nul(ITEM_SAMPLE),
            value_w: to_utf16_nul("出口IP  …"),
        }
    }

    /// Takes over the text that was published last.
    pub fn refresh_value(&mut self, latest: &str)
        ensures
            final(self).value_w@ == wide("出口IP  "@ + latest@),
            final(self).value_w@ == item_value(latest@),
            final(self).name_w == old(self).name_w,
            final(self).id_w == old(self).id_w,
            final(self).label_w == old(self).label_w,
            final(self).sample_w == old(self).sample_w,
            old(self).well_formed() ==> final(self).well_formed(),
    {
        let text = concat(ITEM_LEAD, latest);
        self.value_w = to_utf16_nul(text.as_str());
    }
}

/// What the item shows of a text that was published.
pub open spec fn item_value(latest: Seq<char>) -> Seq<u16> {
    wide("出口IP  "@ + latest)
}

/// The item shows whatever text was published, unchanged and whole, behind its lead.
pub proof fn item_shows_the_whole_text(latest: Seq<char>)
    ensures
        decoded(before_nul(item_value(latest))) == "出口IP  "@ + latest,
        before_nul(item_value(latest)) == utf16("出口IP  "@) + utf16(latest),
        ends_with_nul(item_value(latest)),
{
    let text = "出口IP  "@ + latest;
    wide_text_reads_back(text);
    units_are_those_of_the_characters("出口IP  "@, latest, ' ');
    assert(before_nul(item_value(latest)) =~= utf16(text));
}

/// Before the first probe is over the item has these texts, and shows what it would show of an
/// ellipsis.
pub proof fn item_starts_with_an_ellipsis(item: PluginItem)
    requires
        item.is_initial(),
    ensures
        item.value_w@ == item_value("…"@),
        decoded(before_nul(item.name_w@)) == "落地IP"@,
        decoded(before_nul(item.id_w@)) == "ipdetect.landing_ip"@,
        before_nul(item.label_w@).len() == 0,
        decoded(before_nul(item.sample_w@)) == "出口IP  JP  255.255.255.255"@,
{
    reveal_strlit("出口IP  …");
    reveal_strlit("出口IP  ");
    reveal_strlit("…");
    reveal_strlit("");
    assert("出口IP  …"@ =~= "出口IP  "@ + "…"@);
    wide_text_reads_back("落地IP"@);
    wide_text_reads_back("ipdetect.landing_ip"@);
    wide_text_reads_back("出口IP  JP  255.255.255.255"@);
    assert(before_nul(item.name_w@) =~= wide("落地IP"@).drop_last());
    assert(""@ =~= Seq::<char>::empty());
    units_are_those_of_the_characters(Seq::empty(), Seq::empty(), ' ');
}

/// The text that is published before the first probe is over.
pub fn latest_text() -> (text: String)
    ensures
        text@ == "…"@,
{
    "…".to_owned()
}

/// The text to show for what was published, where that can be read.
pub open spec fn latest_or_dash(latest: Option<Seq<char>>) -> Seq<char> {
    match latest {
        Some(latest) => latest,
        None => "—"@,
    }
}

/// The text to show: the one published last, or a dash where it cannot be read.
pub fn read_latest_text(latest: Option<&str>) -> (text: String)
    ensures
        text@ == (match str_of(latest) {
            Some(latest) => latest,
            None => "—"@,
        }),
        text@ == latest_or_dash(str_of(latest)),
{
    match latest {
        Some(latest) => latest.to_owned(),
        None => "—".to_owned(),
    }
}

/// Units without the last one, which is the zero at the end of a text for the host.
pub open spec fn before_nul(units: Seq<u16>) -> Seq<u16> {
    if units.len() == 0 {
        units
    } else {
        units.drop_last()
    }
}

/// A text for the host without the zero at its end.
pub fn without_nul(units: &Vec<u16>) -> (text: &[u16])
    ensures
        text@ == before_nul(units@),
{
    let len: usize = if units.len() == 0 {
        0
    } else {
        units.len() - 1
    };
    slice_subrange(units.as_slice(), 0, len)
}

/// Whether the item draws itself. It does: on one line, where the host would use two.
pub fn item_is_custom_draw() -> (b: bool)
    ensures
        b,
{
    true
}

/// The texts that describe the plugin, in the order of their indices.
pub open spec fn plugin_texts() -> Seq<Seq<char>> {
    seq![
        "OutIpDetect"@,
        "显示当前经代理出口的IP与国家/地区代码"@,
        "LSvalbar"@,
        "Copyright (C) 2026 LSvalbar"@,
        "0.1.0"@,
        "https://github.com/LSvalbar/OutIpDetect"@,
    ]
}

/// The texts that describe the plugin: name, description, author, copyright, version and URL.
#[derive(Debug)]
pub struct PluginInfo {
    texts_w: Vec<Vec<u16>>,
}

impl View for PluginInfo {
    type V = Seq<Seq<u16>>;

    closed spec fn view(&self) -> Seq<Seq<u16>> {
        Seq::new(self.texts_w@.len(), |i: int| self.texts_w@[i]@)
    }
}

/// The text at an index, where there is one.
pub open spec fn info_text(texts: Seq<Seq<u16>>, index: int) -> Option<Seq<u16>> {
    if 0 <= index < texts.len() {
        Some(texts[index])
    } else {
        None
    }
}

/// The plugin: its one display item and the texts that describe it.
#[derive(Debug)]
pub struct Plugin {
    pub item: PluginItem,
    pub info: PluginInfo,
}

impl Plugin {
    /// The plugin as the host loads it.
    pub fn new() -> (plugin: Plugin)
        ensures
            plugin.item.is_initial(),
            plugin.item.well_formed(),
            plugin.info@ == plugin_texts().map_values(|text: Seq<char>| wide(text)),
    {
        let mut texts_w: Vec<Vec<u16>> = Vec::new();
        texts_w.push(to_utf16_nul("OutIpDetect"));
        texts_w.push(to_utf16_nul("显示当前经代理出口的IP与国家/地区代码"));
        texts_w.push(to_utf16_nul("LSvalbar"));
        texts_w.push(to_utf16_nul("Copyright (C) 2026 LSvalbar"));
        texts_w.push(to_utf16_nul("0.1.0"));
        texts_w.push(to_utf16_nul("https://github.com/LSvalbar/OutIpDetect"));
        Plugin { item: PluginItem::new(), info: PluginInfo { texts_w } }
    }
}

/// Whether there is a display item of the given index. There is one, of index 0.
pub fn plugin_get_item(index: i32) -> (present: bool)
    ensures
        present == (index == 0),
{
    index == 0
}

/// The describing text of the given index; none where there is no such text.
pub fn plugin_get_info(info: &PluginInfo, index: i32) -> (text: Option<&Vec<u16>>)
    ensures
        match text {
            Some(text) => 0 <= index < info@.len() && text@ == info@[index as int],
            None => !(0 <= index < info@.len()),
        },
        info_text(info@, index as int) == (match text {
            Some(text) => Some(text@),
            None => None,
        }),
{
    if index >= 0 && (index as usize) < info.texts_w.len() {
        Some(&info.texts_w[index as usize])
    } else {
        None
    }
}

/// What a font looks like, whatever its direction and its face.
#[derive(Debug, Clone, Copy, PartialEq, Eq, Default)]
pub struct FontStyle {
    pub height: i32,
    pub width: i32,
    pub weight: i32,
    pub italic: u8,
    pub underline: u8,
    pub strike_out: u8,
    pub char_set: u8,
    pub out_precision: u8,
    pub clip_precision: u8,
    pub quality: u8,
    pub pitch_and_family: u8,
}

/// A font.
#[derive(Debug, Clone, Copy, Default)]
pub struct FontDescription {
    pub style: FontStyle,
    /// The angle of the text, in tenths of degrees.
    pub escapement: i32,
    /// The angle of each character, in tenths of degrees.
    pub orientation: i32,
    /// The name of the face, ended by a zero where it does not fill the field.
    pub face_name: [u16; 32],
}

/// `@` before the name of a face, by which its vertical variant is named.
pub open spec fn is_vertical_face(face: Seq<u16>) -> bool {
    face.len() > 0 && face[0] == 0x40
}

/// The face for horizontal text.
pub open spec fn horizontal_face(face: Seq<u16>) -> Seq<u16> {
    if is_vertical_face(face) {
        face.skip(1).push(0)
    } else {
        face
    }
}

/// Sets a font upright: no rotation, and the face for horizontal text. Its style stays.
#[allow(non_snake_case)]
pub fn normalizeFontOrientation(font: &mut FontDescription)
    ensures
        final(font).escapement == 0,
        final(font).orientation == 0,
        final(font).face_name@ == horizontal_face(old(font).face_name@),
        final(font).style == old(font).style,
{
    font.escapement = 0;
    font.orientation = 0;
    if font.face_name[0] == 0x40 {
        let mut face: [u16; 32] = [0u16; 32];
        let mut i: usize = 0;
        while i < 31
            invariant
                i <= 31,
                face@.len() == 32,
                forall|j: int| 0 <= j < i ==> face@[j] == font.face_name@[j + 1],
                face@[31] == 0,
            decreases 31 - i,
        {
            face[i] = font.face_name[i + 1];
            i += 1;
        }
        assert(face@ == font.face_name@.skip(1).push(0));
        font.face_name = face;
    }
}

/// The name of a face: what stands before the first zero.
pub open spec fn face_text(face: Seq<u16>) -> Seq<u16>
    decreases face.len(),
{
    if face.len() == 0 || face[0] == 0 {
        Seq::empty()
    } else {
        seq![face[0]] + face_text(face.drop_first())
    }
}

/// Setting a font upright takes the mark of a vertical face off its name, and nothing else.
pub proof fn upright_face_keeps_its_name(face: Seq<u16>)
    ensures
        face_text(horizontal_face(face)) == (if is_vertical_face(face) {
            face_text(face).skip(1)
        } else {
            face_text(face)
        }),
{
    if is_vertical_face(face) {
        let tail = face.skip(1);
        assert(face.drop_first() == tail);
        lemma_face_text_ended(tail);
        assert(face_text(face).skip(1) == face_text(tail));
    }
}

proof fn lemma_face_text_ended(face: Seq<u16>)
    ensures
        face_text(face.push(0)) == face_text(face),
    decreases face.len(),
{
    if face.len() > 0 && face[0] != 0 {
        lemma_face_text_ended(face.drop_first());
        assert(face.push(0).drop_first() == face.drop_first().push(0));
    }
}

/// A font that was set upright stays as it is when it is set upright again, unless its name had
/// the mark of a vertical face twice.
pub proof fn upright_face_is_stable(face: Seq<u16>)
    requires
        face.len() == 32,
        !(face[0] == 0x40 && face[1] == 0x40),
    ensures
        !is_vertical_face(horizontal_face(face)),
        horizontal_face(horizontal_face(face)) == horizontal_face(face),
{
}

/// A text for the host is cut off by its last unit and nothing else.
pub proof fn only_the_end_is_cut_off(units: Seq<u16>, last: u16)
    ensures
        before_nul(units.push(last)) == units,
        before_nul(Seq::<u16>::empty()).len() == 0,
{
    assert(units.push(last).drop_last() =~= units);
}

/// The mark of a vertical face is taken off whatever name follows, which moves up by one place; a
/// face without the mark stays, unit by unit.
pub proof fn face_moves_up_by_its_mark(face: Seq<u16>, i: int)
    requires
        0 <= i < face.len(),
    ensures
        horizontal_face(face).len() == face.len(),
        face[0] != '@' as u16 ==> horizontal_face(face)[i] == face[i],
        face[0] == '@' as u16 && i < face.len() - 1 ==> horizontal_face(face)[i] == face[i + 1],
        face[0] == '@' as u16 ==> horizontal_face(face).last() == 0,
{
}

/// The plugin describes itself with these six texts, in this order.
pub proof fn plugin_describes_itself()
    ensures
        plugin_texts().len() == 6,
        plugin_texts()[0] == "OutIpDetect"@,
        plugin_texts()[1] == "显示当前经代理出口的IP与国家/地区代码"@,
        plugin_texts()[2] == "LSvalbar"@,
        plugin_texts()[3] == "Copyright (C) 2026 LSvalbar"@,
        plugin_texts()[4] == "0.1.0"@,
        plugin_texts()[5] == "https://github.com/LSvalbar/OutIpDetect"@,
{
}

/// Whatever was published is shown as it is; what cannot be read is shown as a dash.
pub proof fn published_text_is_not_changed(latest: Seq<char>)
    ensures
        latest_or_dash(Some(latest)) == latest,
        latest_or_dash(None) == "—"@,
        item_value(latest_or_dash(Some(latest))) == wide("出口IP  "@ + latest),
{
}

/// An index from 0 on gives the text at its place, as long as there is one; any other index gives
/// none.
pub proof fn texts_are_found_by_index(
    before: Seq<Seq<u16>>,
    text: Seq<u16>,
    after: Seq<Seq<u16>>,
    n: int,
)
    ensures
        info_text(before + seq![text] + after, before.len() as int) == Some(text),
        n < 0 || n >= before.len() ==> info_text(before, n) is None,
{
}

/// What the host is told of the plugin by number: its interface is the seventh, it has no options
/// dialog, and its item is 190 wide where it cannot be measured.
pub proof fn numbers_for_the_host()
    ensures
        API_VERSION == 7,
        OPTIONS_NOT_PROVIDED == 2,
        ITEM_FALLBACK_WIDTH == 190,
        ITEM_HORIZONTAL_PADDING == 4,
        ITEM_LABEL@.len() == 0,
        ITEM_NAME@ == "落地IP"@,
        ITEM_ID@ == "ipdetect.landing_ip"@,
        ITEM_SAMPLE@ == "出口IP  JP  255.255.255.255"@,
        ITEM_LEAD@ == "出口IP  "@,
{
    reveal_strlit("");
}

} // verus!
