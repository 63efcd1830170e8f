use vstd::prelude::*;

verus! {

/// USB vendor id of Elgato.
pub const ELGATO_VENDOR_ID: u16 = 0x0fd9;

/// USB product id of the first Stream Deck.
pub const PID_STREAMDECK_ORIGINAL: u16 = 0x0060;

/// USB product id of the second revision of the Stream Deck.
pub const PID_STREAMDECK_ORIGINAL_V2: u16 = 0x006d;

/// USB product id of the Stream Deck Mini.
pub const PID_STREAMDECK_MINI: u16 = 0x0063;

/// USB product id of the Stream Deck XL.
pub const PID_STREAMDECK_XL: u16 = 0x006c;

/// USB product id of the second revision of the Stream Deck XL.
pub const PID_STREAMDECK_XL_V2: u16 = 0x008f;

/// USB product id of the Stream Deck Mk2.
pub const PID_STREAMDECK_MK2: u16 = 0x0080;

/// USB product id of the Stream Deck Mk2 with scissor keys.
pub const PID_STREAMDECK_MK2_SCISSOR: u16 = 0x00a5;

/// USB product id of the Stream Deck Mini Mk2.
pub const PID_STREAMDECK_MINI_MK2: u16 = 0x0090;

/// USB product id of the Stream Deck Mini Discord edition.
pub const PID_STREAMDECK_MINI_DISCORD: u16 = 0x00b3;

/// USB product id of the Stream Deck Neo.
pub const PID_STREAMDECK_NEO: u16 = 0x009a;

/// USB product id of the Stream Deck Pedal.
pub const PID_STREAMDECK_PEDAL: u16 = 0x0086;

/// USB product id of the Stream Deck Plus.
pub const PID_STREAMDECK_PLUS: u16 = 0x0084;

/// USB product id of the 6-key Stream Deck module.
pub const PID_STREAMDECK_MINI_MK2_MODULE: u16 = 0x00b8;

/// USB product id of the 15-key Stream Deck module.
pub const PID_STREAMDECK_MK2_MODULE: u16 = 0x00b9;

/// USB product id of the 32-key Stream Deck module.
pub const PID_STREAMDECK_XL_V2_MODULE: u16 = 0x00ba;

/// The kinds of Stream Deck that differ in how they are driven.
#[derive(Debug, Clone, Copy, PartialEq, Eq, Hash, Structural)]
pub enum Kind {
    /// First revision of the original Stream Deck.
    Original,
    /// Second revision of the original Stream Deck.
    OriginalV2,
    /// Stream Deck Mini.
    Mini,
    /// Stream Deck XL.
    Xl,
    /// Second revision of the Stream Deck XL.
    XlV2,
    /// Stream Deck Mk2.
    Mk2,
    /// Stream Deck Mk2 with scissor keys.
    Mk2Scissor,
    /// Stream Deck Mini Mk2.
    MiniMk2,
    /// Stream Deck Mini Discord edition.
    MiniDiscord,
    /// Stream Deck Neo.
    Neo,
    /// Stream Deck Pedal.
    Pedal,
    /// Stream Deck Plus.
    Plus,
    /// 6-key module.
    MiniMk2Module,
    /// 15-key module.
    Mk2Module,
    /// 32-key module.
    XlV2Module,
}

impl Kind {
    /// The product id under which a device of this kind identifies itself.
    pub open spec fn spec_product_id(self) -> u16 {
        match self {
            Kind::Original => PID_STREAMDECK_ORIGINAL,
            Kind::OriginalV2 => PID_STREAMDECK_ORIGINAL_V2,
            Kind::Mini => PID_STREAMDECK_MINI,
            Kind::Xl => PID_STREAMDECK_XL,
            Kind::XlV2 => PID_STREAMDECK_XL_V2,
            Kind::Mk2 => PID_STREAMDECK_MK2,
            Kind::Mk2Scissor => PID_STREAMDECK_MK2_SCISSOR,
            Kind::MiniMk2 => PID_STREAMDECK_MINI_MK2,
            Kind::MiniDiscord => PID_STREAMDECK_MINI_DISCORD,
            Kind::Neo => PID_STREAMDECK_NEO,
            Kind::Pedal => PID_STREAMDECK_PEDAL,
            Kind::Plus => PID_STREAMDECK_PLUS,
            Kind::MiniMk2Module => PID_STREAMDECK_MINI_MK2_MODULE,
            Kind::Mk2Module => PID_STREAMDECK_MK2_MODULE,
            Kind::XlV2Module => PID_STREAMDECK_XL_V2_MODULE,
        }
    }

    /// Resolves a kind from a USB vendor and product id: the kind with that product id, when the
    /// vendor is Elgato and there is such a kind.
    pub fn from_vid_pid(vid: u16, pid: u16) -> (kind: Option<Kind>)
        ensures
            match kind {
                Some(k) => vid == ELGATO_VENDOR_ID && k.spec_product_id() == pid,
                None => vid != ELGATO_VENDOR_ID || forall|other: Kind|
                    #[trigger] other.spec_product_id() != pid,
            },
    {
        if vid != ELGATO_VENDOR_ID {
            return None;
        }
        match pid {
            PID_STREAMDECK_ORIGINAL => Some(Kind::Original),
            PID_STREAMDECK_ORIGINAL_V2 => Some(Kind::OriginalV2),
            PID_STREAMDECK_MINI => Some(Kind::Mini),
            PID_STREAMDECK_XL => Some(Kind::Xl),
            PID_STREAMDECK_XL_V2 => Some(Kind::XlV2),
            PID_STREAMDECK_MK2 => Some(Kind::Mk2),
            PID_STREAMDECK_MK2_SCISSOR => Some(Kind::Mk2Scissor),
            PID_STREAMDECK_MINI_MK2 => Some(Kind::MiniMk2),
            PID_STREAMDECK_MINI_DISCORD => Some(Kind::MiniDiscord),
            PID_STREAMDECK_NEO => Some(Kind::Neo),
            PID_STREAMDECK_PEDAL => Some(Kind::Pedal),
            PID_STREAMDECK_PLUS => Some(Kind::Plus),
            PID_STREAMDECK_MINI_MK2_MODULE => Some(Kind::MiniMk2Module),
            PID_STREAMDECK_MK2_MODULE => Some(Kind::Mk2Module),
            PID_STREAMDECK_XL_V2_MODULE => Some(Kind::XlV2Module),
            _ => None,
        }
    }
}

/// No two kinds share a product id, so a device's ids determine its kind.
pub proof fn product_ids_are_distinct(a: Kind, b: Kind)
    ensures
        a.spec_product_id() == b.spec_product_id() ==> a == b,
{
}

/// Each kind goes by its own product id, under the vendor id 0x0fd9.
pub proof fn each_kind_goes_by_its_ids(kind: Kind)
    ensures
        ELGATO_VENDOR_ID == 0x0fd9,
        kind == Kind::Original <==> kind.spec_product_id() == 0x0060,
        kind == Kind::Mini <==> kind.spec_product_id() == 0x0063,
        kind == Kind::Xl <==> kind.spec_product_id() == 0x006c,
        kind == Kind::OriginalV2 <==> kind.spec_product_id() == 0x006d,
        kind == Kind::Mk2 <==> kind.spec_product_id() == 0x0080,
        kind == Kind::Plus <==> kind.spec_product_id() == 0x0084,
        kind == Kind::Pedal <==> kind.spec_product_id() == 0x0086,
        kind == Kind::XlV2 <==> kind.spec_product_id() == 0x008f,
        kind == Kind::MiniMk2 <==> kind.spec_product_id() == 0x0090,
        kind == Kind::Neo <==> kind.spec_product_id() == 0x009a,
        kind == Kind::Mk2Scissor <==> kind.spec_product_id() == 0x00a5,
        kind == Kind::MiniDiscord <==> kind.spec_product_id() == 0x00b3,
        kind == Kind::MiniMk2Module <==> kind.spec_product_id() == 0x00b8,
        kind == Kind::Mk2Module <==> kind.spec_product_id() == 0x00b9,
        kind == Kind::XlV2Module <==> kind.spec_product_id() == 0x00ba,
{
}

/// The ids of a device give its kind, and a kind is given by its ids alone.
pub proof fn ids_resolve_to_the_kind_that_has_them(vid: u16, pid: u16, res: Option<Kind>, kind: Kind)
    requires
        call_ensures(Kind::from_vid_pid, (vid, pid), res),
    ensures
        res == Some(kind) <==> vid == 0x0fd9 && pid == kind.spec_product_id(),
{
    if let Some(found) = res {
        product_ids_are_distinct(found, kind);
    }
}

} // verus!
