use std::collections::{BTreeMap, BTreeSet};
use vstd::prelude::*;
use vstd::std_specs::iter::IteratorSpec;
use vstd::std_specs::btree::{increasing_seq, spec_btree_keys_iter};
use crate::numbers::{decimal, push_decimal};

verus! {

broadcast use {vstd::std_specs::btree::group_btree_axioms, vstd::laws_cmp::group_laws_cmp};

/// The register of the channels that the bot watches, kept per guild; the
/// key `None` stands for channels outside any guild.
pub struct MonitoredChannels {
    pub guilds: BTreeMap<Option<u64>, BTreeSet<u64>>,
}

/// The register as a map from guild to the set of its watched channels.
pub type ChannelMap = Map<Option<u64>, Set<u64>>;

impl View for MonitoredChannels {
    type V = ChannelMap;

    open spec fn view(&self) -> ChannelMap {
        self.guilds@.map_values(|s: BTreeSet<u64>| s@)
    }
}

/// Whether the register `m` watches the channel `channel` of `guild`.
pub open spec fn is_watched(m: ChannelMap, guild: Option<u64>, channel: u64) -> bool {
    m.contains_key(guild) && m[guild].contains(channel)
}

/// Whether no guild of the register `m` is left with an empty set of
/// channels.
pub open spec fn no_empty_guild(m: ChannelMap) -> bool {
    forall|g: Option<u64>| #[trigger] m.contains_key(g) ==> m[g] != Set::<u64>::empty()
}

/// The register `m` once the channel `channel` of `guild` is added.
pub open spec fn with_channel(m: ChannelMap, guild: Option<u64>, channel: u64) -> ChannelMap {
    let before = if m.contains_key(guild) {
        m[guild]
    } else {
        Set::<u64>::empty()
    };
    m.insert(guild, before.insert(channel))
}

/// The register `m` once the channel `channel` of `guild` is removed: a
/// guild whose last channel goes leaves the register.
pub open spec fn without_channel(m: ChannelMap, guild: Option<u64>, channel: u64) -> ChannelMap {
    if !is_watched(m, guild, channel) {
        m
    } else if m[guild].remove(channel) == Set::<u64>::empty() {
        m.remove(guild)
    } else {
        m.insert(guild, m[guild].remove(channel))
    }
}

/// What removing the channel `channel` of `guild` answers: success unless
/// the guild is registered without that channel.
pub open spec fn remove_succeeds(m: ChannelMap, guild: Option<u64>, channel: u64) -> bool {
    !m.contains_key(guild) || m[guild].contains(channel)
}

impl MonitoredChannels {
    /// An empty register.
    pub fn new() -> (r: MonitoredChannels)
        ensures
            r@ == Map::<Option<u64>, Set<u64>>::empty(),
    {
        let r = MonitoredChannels { guilds: BTreeMap::new() };
        assert(r@ =~= Map::<Option<u64>, Set<u64>>::empty());
        r
    }

    /// Whether the channel `channel` of `guild` is watched.
    pub fn is_monitored(&self, guild: Option<u64>, channel: u64) -> (b: bool)
        ensures
            b == is_watched(self@, guild, channel),
    {
        match self.guilds.get(&guild) {
            Some(set) => set.contains(&channel),
            None => false,
        }
    }
}

/// Adds the channel `channel` of `guild` to the register; answers whether
/// it was not watched before.
pub fn channel_add(channels: &mut MonitoredChannels, guild: Option<u64>, channel: u64) -> (added: bool)
    ensures
        final(channels)@ == with_channel(old(channels)@, guild, channel),
        added == !is_watched(old(channels)@, guild, channel),
{
    let mut set = match channels.guilds.remove(&guild) {
        Some(s) => s,
        None => BTreeSet::new(),
    };
    let added = set.insert(channel);
    channels.guilds.insert(guild, set);
    assert(channels@ =~= with_channel(old(channels)@, guild, channel));
    added
}

/// Removes the channel `channel` of `guild` from the register; a guild whose
/// last channel goes leaves it. Answers success unless the guild is
/// registered without that channel.
pub fn channel_remove(channels: &mut MonitoredChannels, guild: Option<u64>, channel: u64) -> (ok:
    bool)
    ensures
        final(channels)@ == without_channel(old(channels)@, guild, channel),
        ok == remove_succeeds(old(channels)@, guild, channel),
{
    match channels.guilds.remove(&guild) {
        None => {
            assert(channels@ =~= old(channels)@);
            true
        },
        Some(mut set) => {
            let ghost before = set@;
            let removed = set.remove(&channel);
            if removed && set.is_empty() {
                assert(set@ =~= Set::<u64>::empty());
                assert(channels@ =~= without_channel(old(channels)@, guild, channel));
            } else {
                channels.guilds.insert(guild, set);
                if !removed {
                    assert(set@ =~= before);
                }
                assert(channels@ =~= without_channel(old(channels)@, guild, channel));
            }
            removed
        },
    }
}


// ---------------------------------------------------------------------
// Laws of the register
// ---------------------------------------------------------------------

/// After adding a channel, that channel is watched, and whether any other
/// channel is watched has not changed.
pub proof fn lemma_add_watches(m: ChannelMap, guild: Option<u64>, channel: u64, g: Option<u64>, c: u64)
    ensures
        is_watched(with_channel(m, guild, channel), g, c) == (is_watched(m, g, c) || (g == guild
            && c == channel)),
{
}

/// After removing a channel, that channel is not watched, and whether any
/// other channel is watched has not changed.
pub proof fn lemma_remove_unwatches(
    m: ChannelMap,
    guild: Option<u64>,
    channel: u64,
    g: Option<u64>,
    c: u64,
)
    ensures
        is_watched(without_channel(m, guild, channel), g, c) == (is_watched(m, g, c) && !(g
            == guild && c == channel)),
{
    if is_watched(m, guild, channel) && m[guild].remove(channel) == Set::<u64>::empty() && g
        == guild && c != channel && m[guild].contains(c) {
        assert(m[guild].remove(channel).contains(c));
    }
}

/// Adding a channel that is already watched changes nothing.
pub proof fn lemma_add_idempotent(m: ChannelMap, guild: Option<u64>, channel: u64)
    ensures
        with_channel(with_channel(m, guild, channel), guild, channel) == with_channel(
            m,
            guild,
            channel,
        ),
{
    let once = with_channel(m, guild, channel);
    assert(once[guild].insert(channel) =~= once[guild]);
    assert(with_channel(once, guild, channel) =~= once);
}

/// Removing a channel that was just added restores the register, when no
/// guild of it had an empty set of channels and the channel was not watched.
pub proof fn lemma_remove_undoes_add(m: ChannelMap, guild: Option<u64>, channel: u64)
    requires
        no_empty_guild(m),
        !is_watched(m, guild, channel),
    ensures
        without_channel(with_channel(m, guild, channel), guild, channel) == m,
        remove_succeeds(with_channel(m, guild, channel), guild, channel),
{
    let once = with_channel(m, guild, channel);
    assert(is_watched(once, guild, channel));
    if m.contains_key(guild) {
        assert(once[guild].remove(channel) =~= m[guild]);
        assert(m[guild] != Set::<u64>::empty());
        assert(once.insert(guild, m[guild]) =~= m);
    } else {
        assert(once[guild].remove(channel) =~= Set::<u64>::empty());
        assert(once.remove(guild) =~= m);
    }
}

/// Adding and removing channels never leaves a guild registered with no
/// channel.
pub proof fn lemma_no_empty_guild_kept(m: ChannelMap, guild: Option<u64>, channel: u64)
    requires
        no_empty_guild(m),
    ensures
        no_empty_guild(with_channel(m, guild, channel)),
        no_empty_guild(without_channel(m, guild, channel)),
{
    let a = with_channel(m, guild, channel);
    assert forall|g: Option<u64>| #[trigger] a.contains_key(g) implies a[g] != Set::<
        u64,
    >::empty() by {
        if g == guild {
            assert(a[g].contains(channel));
        }
    }
}


// ---------------------------------------------------------------------
// Listing the channels of a guild
// ---------------------------------------------------------------------

/// One line per channel of `s`, in order, each a channel mention.
pub open spec fn mention_lines(s: Seq<u64>) -> Seq<char>
    decreases s.len(),
{
    if s.len() == 0 {
        Seq::<char>::empty()
    } else {
        mention_lines(s.drop_last()) + "<#"@ + decimal(s.last() as nat) + ">\n"@
    }
}

pub open spec fn strictly_increasing(s: Seq<u64>) -> bool {
    forall|i: int, j: int| 0 <= i < j < s.len() ==> s[i] < s[j]
}

/// The answer to a request outside any guild.
pub open spec fn outside_guild_text() -> Seq<char> {
    "This command is not available outside guilds..."@
}

/// The answer for a guild without watched channels.
pub open spec fn no_channel_text() -> Seq<char> {
    "There's no monitored channel in the server yet..."@
}

/// Whether `text` is the listing of the watched channels of `guild` in the
/// register `m`: the channels of the guild in increasing order, one mention
/// per line.
pub open spec fn is_channel_listing(m: ChannelMap, guild: Option<u64>, text: Seq<char>) -> bool {
    if guild is None {
        text == outside_guild_text()
    } else if m.contains_key(guild) && m[guild].len() > 0 {
        exists|s: Seq<u64>|
            strictly_increasing(s) && s.to_set() == m[guild] && text == mention_lines(s)
    } else {
        text == no_channel_text()
    }
}

/// The channels that a set hands out in turn come in increasing order.
proof fn lemma_increasing_refs(s: Seq<&u64>)
    requires
        increasing_seq(s),
    ensures
        forall|i: int, j: int| 0 <= i < j < s.len() ==> *s[i] < *s[j],
{
    assert(vstd::laws_cmp::obeys_cmp::<&u64>());
    assert forall|i: int, j: int| 0 <= i < j < s.len() implies *s[i] < *s[j] by {
        assert(vstd::std_specs::cmp::OrdSpec::cmp_spec(&s[i], &s[j]) is Less);
    }
}

/// The answer to a request for the watched channels of `guild`.
pub fn channel_list(channels: &MonitoredChannels, guild: Option<u64>) -> (reply: String)
    ensures
        is_channel_listing(channels@, guild, reply@),
{
    if guild.is_none() {
        return "This command is not available outside guilds...".to_owned();
    }
    match channels.guilds.get(&guild) {
        Some(set) => {
            if set.len() > 0 {
                let mut out = String::new();
                let ghost seq0 = spec_btree_keys_iter(set).remaining();
                assert(seq0.take(seq0.len() as int) =~= seq0);
                for ch in it: set.iter()
                    invariant
                        it.seq() == seq0,
                        seq0.take(seq0.len() as int) == seq0,
                        out@ == mention_lines(seq0.take(it.index() as int).unref()),
                {
                    let ghost before = seq0.take(it.index() as int).unref();
                    out.append("<#");
                    push_decimal(&mut out, *ch);
                    out.append(">\n");
                    assert(seq0.take(it.index() + 1).unref().drop_last() =~= before);
                }
                let ghost s = seq0.unref();
                assert(out@ == mention_lines(s));
                assert(strictly_increasing(s)) by {
                    lemma_increasing_refs(seq0);
                    assert forall|i: int, j: int| 0 <= i < j < s.len() implies s[i] < s[j] by {
                        assert(seq0[i] == s[i]);
                        assert(seq0[j] == s[j]);
                    }
                }
                assert(s.to_set() =~= set@);
                out
            } else {
                "There's no monitored channel in the server yet...".to_owned()
            }
        },
        None => "There's no monitored channel in the server yet...".to_owned(),
    }
}


/// The answer to a request to watch a channel, from whether the channel was
/// newly added.
pub fn channel_add_reply(added: bool) -> (reply: &'static str)
    ensures
        reply@ == (if added {
            "Success..."@
        } else {
            "Channel is already monitored..."@
        }),
{
    if added {
        "Success..."
    } else {
        "Channel is already monitored..."
    }
}

/// The answer to a request to stop watching a channel, from what the
/// removal answered.
pub fn channel_remove_reply(ok: bool) -> (reply: &'static str)
    ensures
        reply@ == (if ok {
            "Success..."@
        } else {
            "Channel is already not monitored..."@
        }),
{
    if ok {
        "Success..."
    } else {
        "Channel is already not monitored..."
    }
}

/// The listing of the channels `s` is, for each channel in order, a line
/// `<#id>` with the channel's decimal id.
pub proof fn lemma_listing_lines(s: Seq<u64>)
    ensures
        mention_lines(s) == s.map_values(|c: u64| "<#"@ + decimal(c as nat) + ">\n"@).flatten_alt(),
    decreases s.len(),
{
    let f = |c: u64| "<#"@ + decimal(c as nat) + ">\n"@;
    if s.len() > 0 {
        lemma_listing_lines(s.drop_last());
        assert(s.map_values(f).drop_last() =~= s.drop_last().map_values(f));
        assert(s.map_values(f).last() == f(s.last()));
        assert(mention_lines(s) =~= s.map_values(f).flatten_alt());
    } else {
        assert(s.map_values(f) =~= Seq::<Seq<char>>::empty());
    }
}

} // verus!
