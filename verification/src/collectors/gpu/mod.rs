//! Graphics cards, read by vendor. The vendor comes from the PCI vendor number
//! of `/sys/class/drm/cardN/device/vendor`.

pub mod amd;
pub mod intel;
pub mod nvidia;

use vstd::prelude::*;

use crate::collector::{Collected, Collector};
use crate::error::{message_of, Error, ErrorView};
use crate::sample::{
    option_view, views, CollectorError, CollectorErrorView, Gpu, GpuSample, GpuSampleView,
    GpuVendor, GpuView, Snapshot, SnapshotView,
};
use crate::sysfs::{join, joined, NameFilter, SysfsReader};
use crate::text::{same_str, strings};
use self::amd::amd_card_of;
use self::intel::intel_card_of;
use self::nvidia::note_of;

verus! {

pub const NAME: &'static str = "gpu";

pub const SYS_CLASS_DRM: &'static str = "sys/class/drm";

pub const PCI_VENDOR_AMD: &'static str = "0x1002";

pub const PCI_VENDOR_INTEL: &'static str = "0x8086";

pub const PCI_VENDOR_NVIDIA: &'static str = "0x10de";

/// A card's own directory, where Intel's drivers put their frequency files.
pub open spec fn card_path(card: Seq<char>) -> Seq<char> {
    joined(SYS_CLASS_DRM@, card)
}

/// A card's device directory, where vendor, memory and sensors are.
pub open spec fn device_path(card: Seq<char>) -> Seq<char> {
    joined(card_path(card), "device"@)
}

pub fn card_dir(card: &str) -> (r: String)
    ensures
        r@ == card_path(card@),
{
    join(SYS_CLASS_DRM, card)
}

pub fn device_dir(card: &str) -> (r: String)
    ensures
        r@ == device_path(card@),
{
    let dir = card_dir(card);
    join(dir.as_str(), "device")
}

/// The value of an optional number file.
pub open spec fn number_at(reader: &SysfsReader, path: Seq<char>) -> Option<u64> {
    match reader.u64_at(path) {
        Ok(Ok(v)) => Some(v),
        _ => None,
    }
}

pub open spec fn signed_at(reader: &SysfsReader, path: Seq<char>) -> Option<i64> {
    match reader.i64_at(path) {
        Ok(Ok(v)) => Some(v),
        _ => None,
    }
}

pub(crate) fn read_number(reader: &SysfsReader, dir: &str, file: &str) -> (r: Option<u64>)
    ensures
        r == number_at(reader, joined(dir@, file@)),
{
    let path = join(dir, file);
    match reader.read_u64(path.as_str()) {
        Ok(Ok(v)) => Some(v),
        _ => None,
    }
}

pub(crate) fn read_signed(reader: &SysfsReader, dir: &str, file: &str) -> (r: Option<i64>)
    ensures
        r == signed_at(reader, joined(dir@, file@)),
{
    let path = join(dir, file);
    match reader.read_i64(path.as_str()) {
        Ok(Ok(v)) => Some(v),
        _ => None,
    }
}

/// The cards, in order, without their connectors (`card0-DP-1`).
pub open spec fn cards_of(reader: &SysfsReader) -> Result<Seq<Seq<char>>, ErrorView> {
    match reader.names_at(SYS_CLASS_DRM@, NameFilter::Numbered { prefix: "card" }) {
        Err(e) => Err(e),
        Ok(Err(_)) => Ok(seq![]),
        Ok(Ok(names)) => Ok(names),
    }
}

pub open spec fn cards_view(r: Result<Vec<String>, Error>) -> Result<Seq<Seq<char>>, ErrorView> {
    match r {
        Ok(v) => Ok(strings(v@)),
        Err(e) => Err(e@),
    }
}

/// Lists the cards. No `/sys/class/drm` means no cards, and is no error.
pub fn enumerate_cards(reader: &SysfsReader) -> (r: Result<Vec<String>, Error>)
    ensures
        cards_view(r) == cards_of(reader),
{
    match reader.list_dir(SYS_CLASS_DRM, NameFilter::Numbered { prefix: "card" }) {
        Err(e) => Err(e),
        Ok(Ok(names)) => Ok(names),
        Ok(Err(_)) => {
            let none: Vec<String> = Vec::new();
            assert(strings(none@) == Seq::<Seq<char>>::empty());
            Ok(none)
        },
    }
}

pub open spec fn vendor_path(card: Seq<char>) -> Seq<char> {
    joined(device_path(card), "vendor"@)
}

/// Who made a card; unknown where that cannot be read, or is someone else.
pub open spec fn vendor_of(reader: &SysfsReader, card: Seq<char>) -> GpuVendor {
    match reader.first_line_at(vendor_path(card)) {
        Ok(Ok(id)) => if id == PCI_VENDOR_AMD@ {
            GpuVendor::Amd
        } else if id == PCI_VENDOR_INTEL@ {
            GpuVendor::Intel
        } else if id == PCI_VENDOR_NVIDIA@ {
            GpuVendor::Nvidia
        } else {
            GpuVendor::Unknown
        },
        _ => GpuVendor::Unknown,
    }
}

/// Maps a card's PCI vendor number to a vendor.
pub fn read_vendor(reader: &SysfsReader, card: &str) -> (r: Result<GpuVendor, Error>)
    ensures
        r is Ok,
        r->Ok_0 == vendor_of(reader, card@),
{
    let dir = device_dir(card);
    let path = join(dir.as_str(), "vendor");
    let vendor = match reader.read_first_line(path.as_str()) {
        Ok(Ok(id)) => if same_str(id.as_str(), PCI_VENDOR_AMD) {
            GpuVendor::Amd
        } else if same_str(id.as_str(), PCI_VENDOR_INTEL) {
            GpuVendor::Intel
        } else if same_str(id.as_str(), PCI_VENDOR_NVIDIA) {
            GpuVendor::Nvidia
        } else {
            GpuVendor::Unknown
        },
        _ => GpuVendor::Unknown,
    };
    Ok(vendor)
}

/// What is read of a card. An unknown card is as absent as none, and NVIDIA's
/// driver shows nothing in files.
pub open spec fn card_of(reader: &SysfsReader, card: Seq<char>, vendor: GpuVendor) -> Result<
    Option<GpuView>,
    ErrorView,
> {
    match vendor {
        GpuVendor::Amd => amd_card_of(reader, card),
        GpuVendor::Intel => intel_card_of(reader, card),
        GpuVendor::Nvidia => Ok(None),
        GpuVendor::Unknown => Ok(None),
    }
}

pub open spec fn card_view(r: Result<Option<Gpu>, Error>) -> Result<Option<GpuView>, ErrorView> {
    match r {
        Ok(gpu) => Ok(option_view(gpu)),
        Err(e) => Err(e@),
    }
}

/// Reads one card as its vendor's.
pub fn read_card(reader: &SysfsReader, card: &str, vendor: GpuVendor) -> (r: Result<
    Option<Gpu>,
    Error,
>)
    ensures
        card_view(r) == card_of(reader, card@, vendor),
{
    match vendor {
        GpuVendor::Amd => amd::read(reader, card),
        GpuVendor::Intel => intel::read(reader, card),
        GpuVendor::Nvidia => nvidia::read(card),
        GpuVendor::Unknown => Ok(None),
    }
}

/// The sample of some cards; none where there are none.
pub open spec fn gpu_sample_of(gpus: Seq<GpuView>) -> Option<GpuSampleView> {
    if gpus.len() == 0 {
        None
    } else {
        Some(GpuSampleView { gpus })
    }
}

pub fn build_sample(gpus: Vec<Gpu>) -> (r: Option<GpuSample>)
    ensures
        option_view(r) == gpu_sample_of(views(gpus@)),
{
    assert(views(gpus@).len() == gpus@.len());
    if gpus.len() == 0 {
        None
    } else {
        Some(GpuSample { gpus })
    }
}

// ---------------------------------------------------------------------------
// The collector
// ---------------------------------------------------------------------------
/// A card and its vendor.
#[derive(Debug)]
pub struct Card {
    pub name: String,
    pub vendor: GpuVendor,
}

pub struct CardView {
    pub name: Seq<char>,
    pub vendor: GpuVendor,
}

impl View for Card {
    type V = CardView;

    open spec fn view(&self) -> CardView {
        CardView { name: self.name@, vendor: self.vendor }
    }
}

#[derive(Debug)]
pub struct GpuCollector {
    /// The cards that were found first, which do not change.
    cards: Vec<Card>,
}

pub open spec fn identified(reader: &SysfsReader, names: Seq<Seq<char>>) -> Seq<CardView> {
    names.map_values(
        |name: Seq<char>| CardView { name, vendor: vendor_of(reader, name) },
    )
}

/// The cards that are known after a look.
pub open spec fn known_cards(reader: &SysfsReader, cards: Seq<CardView>) -> Result<
    Seq<CardView>,
    ErrorView,
> {
    if cards.len() > 0 {
        Ok(cards)
    } else {
        match cards_of(reader) {
            Err(e) => Err(e),
            Ok(names) => Ok(identified(reader, names)),
        }
    }
}

/// What is noted of a card that shows nothing, of those noted before.
pub open spec fn with_note(errors: Seq<CollectorErrorView>, card: CardView) -> Seq<
    CollectorErrorView,
> {
    match card.vendor {
        GpuVendor::Nvidia => errors.push(
            CollectorErrorView { collector: NAME@, message: note_of(card.name) },
        ),
        _ => errors,
    }
}

/// What the cards show, and the errors of those that could not be read. A card
/// that was seen and that nothing can be read of is noted among them.
pub open spec fn cards_read(reader: &SysfsReader, cards: Seq<CardView>) -> (
    Seq<GpuView>,
    Seq<CollectorErrorView>,
)
    decreases cards.len(),
{
    if cards.len() == 0 {
        (seq![], seq![])
    } else {
        let (gpus, errors) = cards_read(reader, cards.drop_last());
        match card_of(reader, cards.last().name, cards.last().vendor) {
            Ok(Some(gpu)) => (gpus.push(gpu), errors),
            Ok(None) => (gpus, with_note(errors, cards.last())),
            Err(e) => (
                gpus,
                errors.push(CollectorErrorView { collector: NAME@, message: message_of(e) }),
            ),
        }
    }
}

/// What a collection does: a card that fails is noted, and the others stay.
pub open spec fn gpu_collected(cards: Seq<CardView>, reader: &SysfsReader, before: SnapshotView) -> Collected<
    Seq<CardView>,
> {
    match known_cards(reader, cards) {
        Err(e) => Collected { state: cards, snapshot: before, outcome: Err(e) },
        Ok(known) => {
            let (gpus, errors) = cards_read(reader, known);
            Collected {
                state: known,
                snapshot: SnapshotView {
                    gpus: gpu_sample_of(gpus),
                    errors: before.errors + errors,
                    ..before
                },
                outcome: Ok(()),
            }
        },
    }
}

/// Some card says who made it.
pub open spec fn some_vendor(reader: &SysfsReader, cards: Seq<Seq<char>>) -> bool {
    exists|i: int| 0 <= i < cards.len() && reader.present(vendor_path(#[trigger] cards[i]))
}

fn any_vendor(reader: &SysfsReader, cards: &Vec<String>) -> (r: bool)
    ensures
        r == some_vendor(reader, strings(cards@)),
{
    let ghost cs = strings(cards@);
    let mut i: usize = 0;
    while i < cards.len()
        invariant
            i <= cards.len(),
            cs == strings(cards@),
            forall|k: int| 0 <= k < i ==> !reader.present(vendor_path(#[trigger] cs[k])),
        decreases cards.len() - i,
    {
        let dir = device_dir(cards[i].as_str());
        let path = join(dir.as_str(), "vendor");
        assert(cs[i as int] == cards@[i as int]@);
        if reader.is_present(path.as_str()) {
            return true;
        }
        i = i + 1;
    }
    false
}

fn identify(reader: &SysfsReader, names: &Vec<String>) -> (r: Result<Vec<Card>, Error>)
    ensures
        r is Ok,
        views(r->Ok_0@) == identified(reader, strings(names@)),
{
    let ghost all = strings(names@);
    let mut out: Vec<Card> = Vec::new();
    let mut i: usize = 0;
    while i < names.len()
        invariant
            i <= names.len(),
            all == strings(names@),
            views(out@) == identified(reader, all.take(i as int)),
        decreases names.len() - i,
    {
        let vendor = match read_vendor(reader, names[i].as_str()) {
            Err(e) => return Err(e),
            Ok(vendor) => vendor,
        };
        let ghost before = views(out@);
        let card = Card { name: names[i].clone(), vendor };
        out.push(card);
        assert(views(out@) == before.push(card@));
        assert(all[i as int] == names@[i as int]@);
        assert(identified(reader, all.take(i + 1)) == identified(reader, all.take(i as int)).push(
            CardView { name: all[i as int], vendor: vendor_of(reader, all[i as int]) },
        ));
        i = i + 1;
    }
    assert(all.take(i as int) == all);
    Ok(out)
}

impl GpuCollector {
    pub closed spec fn found(&self) -> Seq<CardView> {
        views(self.cards@)
    }

    pub fn new() -> (r: GpuCollector)
        ensures
            r.found() == Seq::<CardView>::empty(),
    {
        let r = GpuCollector { cards: Vec::new() };
        assert(views(r.cards@) == Seq::<CardView>::empty());
        r
    }
}

impl Collector for GpuCollector {
    type Model = Seq<CardView>;

    open spec fn model(&self) -> Seq<CardView> {
        self.found()
    }

    open spec fn named(state: Seq<CardView>) -> Seq<char> {
        NAME@
    }

    open spec fn usable(state: Seq<CardView>, reader: &SysfsReader) -> bool {
        match cards_of(reader) {
            Err(_) => false,
            Ok(cards) => some_vendor(reader, cards),
        }
    }

    open spec fn collected(
        state: Seq<CardView>,
        reader: &SysfsReader,
        before: SnapshotView,
    ) -> Collected<Seq<CardView>> {
        gpu_collected(state, reader, before)
    }

    fn name(&self) -> (r: &'static str) {
        NAME
    }

    fn probe(&self, reader: &SysfsReader) -> (r: bool) {
        let cards = match enumerate_cards(reader) {
            Err(_) => return false,
            Ok(cards) => cards,
        };
        any_vendor(reader, &cards)
    }

    fn collect(&mut self, reader: &SysfsReader, snapshot: &mut Snapshot) -> (r: Result<(), Error>) {
        let ghost start = snapshot@;
        assert(self.found().len() == self.cards@.len());
        if self.cards.len() == 0 {
            match enumerate_cards(reader) {
                Err(e) => return Err(e),
                Ok(names) => match identify(reader, &names) {
                    Err(e) => return Err(e),
                    Ok(cards) => self.cards = cards,
                },
            }
        }
        let ghost known = self.found();
        let mut gpus: Vec<Gpu> = Vec::new();
        let mut i: usize = 0;
        assert(views(gpus@) == Seq::<GpuView>::empty());
        assert(start.errors + Seq::<CollectorErrorView>::empty() == start.errors);
        while i < self.cards.len()
            invariant
                i <= self.cards@.len(),
                known == self.found(),
                views(gpus@) == cards_read(reader, known.take(i as int)).0,
                snapshot@ == (SnapshotView {
                    errors: start.errors + cards_read(reader, known.take(i as int)).1,
                    ..start
                }),
            decreases self.cards@.len() - i,
        {
            let card = &self.cards[i];
            assert(known.take(i + 1).drop_last() == known.take(i as int));
            assert(known.take(i + 1).last() == card@);
            match read_card(reader, card.name.as_str(), card.vendor) {
                Ok(Some(gpu)) => {
                    let ghost before = views(gpus@);
                    gpus.push(gpu);
                    assert(views(gpus@) == before.push(gpu@));
                },
                Ok(None) => match card.vendor {
                    GpuVendor::Nvidia => {
                        let ghost before = views(snapshot.errors@);
                        let note = CollectorError {
                            collector: NAME,
                            message: nvidia::note(card.name.as_str()),
                        };
                        snapshot.errors.push(note);
                        assert(views(snapshot.errors@) == before.push(note@));
                        assert(before.push(note@) == start.errors + cards_read(
                            reader,
                            known.take(i + 1),
                        ).1);
                    },
                    _ => {},
                },
                Err(e) => {
                    let ghost before = views(snapshot.errors@);
                    let note = CollectorError { collector: NAME, message: e.to_string() };
                    snapshot.errors.push(note);
                    assert(views(snapshot.errors@) == before.push(note@));
                    assert(before.push(note@) == start.errors + cards_read(
                        reader,
                        known.take(i + 1),
                    ).1);
                },
            }
            i = i + 1;
        }
        assert(known.take(i as int) == known);
        snapshot.gpus = build_sample(gpus);
        Ok(())
    }
}

} // verus!
