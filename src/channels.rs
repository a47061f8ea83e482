//! The channel table: a fixed set of channels made once at startup, whose
//! ids are their positions.

use vstd::prelude::*;
use crate::api::opt_view;

verus! {

/// A channel's identity, without its history.
pub struct ChannelInfo {
    pub id: u32,
    pub name: String,
    pub icon: Option<String>,
}

pub struct ChannelInfoView {
    pub id: u32,
    pub name: Seq<char>,
    pub icon: Option<Seq<char>>,
}

impl View for ChannelInfo {
    type V = ChannelInfoView;

    open spec fn view(&self) -> ChannelInfoView {
        ChannelInfoView { id: self.id, name: self.name@, icon: opt_view(self.icon) }
    }
}

/// Ids are the positions.
pub open spec fn channels_wf(channels: Seq<ChannelInfoView>) -> bool {
    &&& channels.len() <= u32::MAX + 1
    &&& forall|i: int| 0 <= i < channels.len() ==> #[trigger] channels[i].id == i
}

/// The channels of the service, in id order.
pub open spec fn service_channels() -> Seq<ChannelInfoView> {
    seq![
        ChannelInfoView { id: 0, name: "Общение"@, icon: Some("./images/chatting.png"@) },
        ChannelInfoView { id: 1, name: "Разработка"@, icon: Some("./images/development.png"@) },
        ChannelInfoView { id: 2, name: "Программирование"@, icon: Some("./images/code.png"@) },
        ChannelInfoView { id: 3, name: "Игры"@, icon: Some("./images/games.png"@) },
    ]
}

pub struct Channels {
    list: Vec<ChannelInfo>,
}

impl View for Channels {
    type V = Seq<ChannelInfoView>;

    closed spec fn view(&self) -> Seq<ChannelInfoView> {
        self.list@.map_values(|c: ChannelInfo| c@)
    }
}

fn entry(id: u32, name: &str, icon: &str) -> (r: ChannelInfo)
    ensures
        r@ == (ChannelInfoView { id, name: name@, icon: Some(icon@) }),
{
    ChannelInfo { id, name: name.to_owned(), icon: Some(icon.to_owned()) }
}

impl Channels {
    pub open spec fn wf(&self) -> bool {
        channels_wf(self@)
    }

    /// The channels of the service.
    pub fn new() -> (r: Channels)
        ensures
            r.wf(),
            r@ == service_channels(),
    {
        let list = vec![
            entry(0, "Общение", "./images/chatting.png"),
            entry(1, "Разработка", "./images/development.png"),
            entry(2, "Программирование", "./images/code.png"),
            entry(3, "Игры", "./images/games.png"),
        ];
        let r = Channels { list };
        assert(r@ =~= service_channels());
        r
    }

    /// The number of channels.
    pub fn len(&self) -> (r: usize)
        ensures
            r == self@.len(),
    {
        self.list.len()
    }

    /// The channel at position `i`.
    pub fn get(&self, i: usize) -> (r: &ChannelInfo)
        requires
            i < self@.len(),
        ensures
            r@ == self@[i as int],
    {
        &self.list[i]
    }
}

} // verus!
