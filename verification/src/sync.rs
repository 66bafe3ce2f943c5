use vstd::prelude::*;

verus! {

/// The action to take for one sync item.
#[derive(Debug, Clone, Copy, PartialEq, Eq, Structural)]
pub enum SyncResolution {
    Incomplete,
    Complete,
    Remove,
}

/// One unit of disagreement between the store and the checklist file, with
/// its proposed resolution; the user may override the resolution before the
/// item is applied.
#[derive(Debug, Clone)]
pub struct SyncItem {
    pub text: String,
    pub resolution: SyncResolution,
}

/// Model of a sync item: its text characters and its resolution.
pub struct SyncItemModel {
    pub text: Seq<char>,
    pub resolution: SyncResolution,
}

impl View for SyncItem {
    type V = SyncItemModel;

    open spec fn view(&self) -> SyncItemModel {
        SyncItemModel { text: self.text@, resolution: self.resolution }
    }
}

/// The models of a list of sync items, in order.
pub open spec fn models(items: Seq<SyncItem>) -> Seq<SyncItemModel> {
    items.map_values(|it: SyncItem| it@)
}

pub proof fn lemma_models_push(items: Seq<SyncItem>, it: SyncItem)
    ensures
        models(items.push(it)) == models(items).push(it@),
{
    assert(models(items.push(it)) =~= models(items).push(it@));
}

/// What the overlay asks of its caller after a key press.
pub enum SyncAction {
    Consumed,
    Dismiss,
    Apply(Vec<SyncItem>),
}

/// Key presses the sync overlay reacts to, once the terminal layer has
/// decoded them.
#[derive(Debug, Clone, Copy, PartialEq, Eq, Structural)]
pub enum SyncKey {
    Dismiss,
    Down,
    Up,
    MarkIncomplete,
    MarkComplete,
    MarkRemove,
    Confirm,
    Other,
}

/// Interactive review of pending sync items: one item is focused, and each
/// item's resolution can be overridden before the list is applied.
pub struct SyncOverlay {
    pub items: Vec<SyncItem>,
    pub focused: usize,
}

impl SyncOverlay {
    pub fn new(items: Vec<SyncItem>) -> (r: SyncOverlay)
        ensures
            r.items == items,
            r.focused == 0,
    {
        SyncOverlay { items, focused: 0 }
    }

    /// Set the resolution of the focused item, if any.
    fn mark_focused(&mut self, resolution: SyncResolution)
        ensures
            final(self).focused == old(self).focused,
            old(self).focused < old(self).items@.len() ==> final(self).items@ == old(
                self,
            ).items@.update(
                old(self).focused as int,
                (SyncItem {
                    text: old(self).items@[old(self).focused as int].text,
                    resolution: resolution,
                }),
            ),
            old(self).focused >= old(self).items@.len() ==> final(self).items@ == old(
                self,
            ).items@,
    {
        if self.focused < self.items.len() {
            let mut it = self.items.remove(self.focused);
            it.resolution = resolution;
            self.items.insert(self.focused, it);
            proof {
                assert(self.items@ =~= old(self).items@.update(
                    old(self).focused as int,
                    (SyncItem {
                        text: old(self).items@[old(self).focused as int].text,
                        resolution: resolution,
                    }),
                ));
            }
        }
    }

    /// Drive the overlay with one decoded key press.
    pub fn handle_key(&mut self, key: SyncKey) -> (r: SyncAction)
        ensures
            key == SyncKey::Dismiss ==> (r is Dismiss) && *final(self) == *old(self),
            key == SyncKey::Down ==> (r is Consumed) && final(self).items == old(self).items
                && final(self).focused == (if old(self).items@.len() > 0 && old(self).focused + 1
                < old(self).items@.len() {
                old(self).focused + 1
            } else {
                old(self).focused as int
            }),
            key == SyncKey::Up ==> (r is Consumed) && final(self).items == old(self).items
                && final(self).focused == (if old(self).focused > 0 {
                old(self).focused - 1
            } else {
                old(self).focused as int
            }),
            (key == SyncKey::MarkIncomplete || key == SyncKey::MarkComplete || key
                == SyncKey::MarkRemove) ==> {
                let res = match key {
                    SyncKey::MarkIncomplete => SyncResolution::Incomplete,
                    SyncKey::MarkComplete => SyncResolution::Complete,
                    _ => SyncResolution::Remove,
                };
                &&& (r is Consumed)
                &&& final(self).focused == old(self).focused
                &&& (old(self).focused < old(self).items@.len() ==> final(self).items@ == old(
                    self,
                ).items@.update(
                    old(self).focused as int,
                    (SyncItem {
                        text: old(self).items@[old(self).focused as int].text,
                        resolution: res,
                    }),
                ))
                &&& (old(self).focused >= old(self).items@.len() ==> final(self).items@ == old(
                    self,
                ).items@)
            },
            key == SyncKey::Confirm ==> (match r {
                SyncAction::Apply(taken) => taken@ == old(self).items@ && final(self).items@.len()
                    == 0 && final(self).focused == old(self).focused,
                _ => false,
            }),
            key == SyncKey::Other ==> (r is Consumed) && *final(self) == *old(self),
    {
        match key {
            SyncKey::Dismiss => SyncAction::Dismiss,
            SyncKey::Down => {
                if self.items.len() > 0 && self.focused < self.items.len() - 1 {
                    self.focused = self.focused + 1;
                }
                SyncAction::Consumed
            },
            SyncKey::Up => {
                if self.focused > 0 {
                    self.focused = self.focused - 1;
                }
                SyncAction::Consumed
            },
            SyncKey::MarkIncomplete => {
                self.mark_focused(SyncResolution::Incomplete);
                SyncAction::Consumed
            },
            SyncKey::MarkComplete => {
                self.mark_focused(SyncResolution::Complete);
                SyncAction::Consumed
            },
            SyncKey::MarkRemove => {
                self.mark_focused(SyncResolution::Remove);
                SyncAction::Consumed
            },
            SyncKey::Confirm => {
                let taken = self.items.split_off(0);
                proof {
                    assert(taken@ =~= old(self).items@);
                    assert(self.items@ =~= Seq::<SyncItem>::empty());
                }
                SyncAction::Apply(taken)
            },
            SyncKey::Other => SyncAction::Consumed,
        }
    }
}

} // verus!
