//! What a command makes the server do: the effects, in their order.
use vstd::prelude::*;
use crate::keys::UserKey;
use crate::protocol::{ServerCommand, ServerCommandView};

verus! {

/// One thing to do.
#[derive(Debug, PartialEq, Eq)]
pub enum Effect {
    /// Send a command to each of these users, in this order.
    Send { to: Vec<UserKey>, cmd: ServerCommand },
    /// Write the list of public rooms out anew.
    RefreshPublicRooms,
}

/// The mathematical value of an [`Effect`].
pub enum EffectView {
    Send { to: Seq<UserKey>, cmd: ServerCommandView },
    RefreshPublicRooms,
}

impl View for Effect {
    type V = EffectView;

    open spec fn view(&self) -> EffectView {
        match *self {
            Effect::Send { to, cmd } => EffectView::Send { to: to@, cmd: cmd@ },
            Effect::RefreshPublicRooms => EffectView::RefreshPublicRooms,
        }
    }
}

/// The effects that wait to be carried out.
pub struct Outbox {
    pub effects: Vec<Effect>,
}

impl View for Outbox {
    type V = Seq<EffectView>;

    open spec fn view(&self) -> Seq<EffectView> {
        self.effects@.map_values(|e: Effect| e@)
    }
}

impl Outbox {
    /// No effects.
    pub fn new() -> (r: Self)
        ensures
            r@ == Seq::<EffectView>::empty(),
    {
        let r = Outbox { effects: Vec::new() };
        assert(r@ =~= Seq::empty());
        r
    }

    /// Adds an effect behind the others.
    pub fn push(&mut self, effect: Effect)
        ensures
            final(self)@ == old(self)@.push(effect@),
    {
        self.effects.push(effect);
        assert(self@ =~= old(self)@.push(effect@));
    }

    /// Adds a command to a list of users.
    pub fn send(&mut self, to: Vec<UserKey>, cmd: ServerCommand)
        ensures
            final(self)@ == old(self)@.push(EffectView::Send { to: to@, cmd: cmd@ }),
    {
        self.push(Effect::Send { to, cmd });
    }

    /// Adds a command to one user.
    pub fn send_to(&mut self, to: UserKey, cmd: ServerCommand)
        ensures
            final(self)@ == old(self)@.push(EffectView::Send { to: seq![to], cmd: cmd@ }),
    {
        let mut list: Vec<UserKey> = Vec::new();
        list.push(to);
        assert(list@ =~= seq![to]);
        self.send(list, cmd);
    }

    /// Takes the effects out, oldest first.
    pub fn take(&mut self) -> (r: Vec<Effect>)
        ensures
            r@.map_values(|e: Effect| e@) == old(self)@,
            final(self)@ == Seq::<EffectView>::empty(),
    {
        let mut r: Vec<Effect> = Vec::new();
        r.append(&mut self.effects);
        assert(r@ =~= old(self).effects@);
        assert(self@ =~= Seq::empty());
        r
    }
}

} // verus!
