use vstd::prelude::*;

verus! {

/// A keyboard shortcut shown in the help bar.
#[derive(Debug, Clone, Copy)]
pub struct Shortcut {
    pub key: &'static str,
    pub description: &'static str,
}

/// Outcome of handing a key press to a panel.
#[derive(Debug, Clone, Copy, PartialEq, Eq, Structural)]
pub enum KeyHandleResult {
    Consumed,
    Ignored,
    AddTask,
}

#[derive(Debug, Clone, Copy, PartialEq, Eq, Hash, Structural)]
pub enum PanelId {
    Timer,
    Tasks,
}

impl PanelId {
    pub fn all() -> (r: [PanelId; 2])
        ensures
            r@ == seq![PanelId::Timer, PanelId::Tasks],
    {
        let r = [PanelId::Timer, PanelId::Tasks];
        proof {
            assert(r@ =~= seq![PanelId::Timer, PanelId::Tasks]);
        }
        r
    }

    pub fn from_number(n: u8) -> (r: Option<PanelId>)
        ensures
            n == 1 ==> r == Some(PanelId::Timer),
            n == 2 ==> r == Some(PanelId::Tasks),
            n != 1 && n != 2 ==> r is None,
    {
        match n {
            1 => Some(PanelId::Timer),
            2 => Some(PanelId::Tasks),
            _ => None,
        }
    }
}

} // verus!
