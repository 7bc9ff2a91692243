//! Live-update subscriptions and conflict resolution between a local and a
//! remote copy of a record.

use vstd::prelude::*;

verus! {

use vstd::string::StrSliceExecFns;
use vstd::string::StringExecFns;

/// Kind of change reported by the live-update channel.
#[derive(Clone, Copy, PartialEq, Eq, Structural, Debug)]
pub enum RealtimeEventType {
    Insert,
    Update,
    Delete,
}

/// Configuration of one live-update subscription.
#[derive(Clone)]
pub struct RealtimeSubscription {
    pub channel_name: String,
    pub table: String,
    pub filter: Option<String>,
    pub schema: String,
}

impl RealtimeSubscription {
    /// Create a subscription for a table, with an optional row filter.
    pub fn new(table: &str, filter: Option<&str>) -> (r: Self)
        ensures
            r.channel_name@ == "realtime:public:"@ + table@,
            r.table@ == table@,
            match (r.filter, filter) {
                (Some(f), Some(g)) => f@ == g@,
                (None, None) => true,
                _ => false,
            },
            r.schema@ == "public"@,
    {
        let mut channel_name = String::new();
        channel_name.append("realtime:public:");
        channel_name.append(table);
        let mut schema = String::new();
        schema.append("public");
        let filter_owned = match filter {
            Some(f) => Some(f.to_owned()),
            None => None,
        };
        RealtimeSubscription {
            channel_name,
            table: table.to_owned(),
            filter: filter_owned,
            schema,
        }
    }

    /// A subscription for the tasks of a project.
    pub fn tasks(project_id: &str) -> (r: Self)
        ensures
            r.table@ == "tasks"@,
            r.channel_name@ == "realtime:public:"@ + "tasks"@,
            r.filter matches Some(f) && f@ == "project_id=eq."@ + project_id@,
            r.schema@ == "public"@,
    {
        let mut filter = String::new();
        filter.append("project_id=eq.");
        filter.append(project_id);
        Self::new("tasks", Some(filter.as_str()))
    }

    /// A subscription for the stories of a project.
    pub fn stories(project_id: &str) -> (r: Self)
        ensures
            r.table@ == "stories"@,
            r.channel_name@ == "realtime:public:"@ + "stories"@,
            r.filter matches Some(f) && f@ == "project_id=eq."@ + project_id@,
            r.schema@ == "public"@,
    {
        let mut filter = String::new();
        filter.append("project_id=eq.");
        filter.append(project_id);
        Self::new("stories", Some(filter.as_str()))
    }

    /// A subscription for the members of a team.
    pub fn team_members(team_id: &str) -> (r: Self)
        ensures
            r.table@ == "team_members"@,
            r.channel_name@ == "realtime:public:"@ + "team_members"@,
            r.filter matches Some(f) && f@ == "team_id=eq."@ + team_id@,
            r.schema@ == "public"@,
    {
        let mut filter = String::new();
        filter.append("team_id=eq.");
        filter.append(team_id);
        Self::new("team_members", Some(filter.as_str()))
    }
}

/// How a conflict between a local and a remote record copy is resolved.
#[derive(Clone, Copy, PartialEq, Eq, Structural, Debug)]
pub enum ConflictStrategy {
    /// The copy with the later update time wins; on a tie the local one.
    LastWriterWins,
    /// The local copy wins.
    KeepLocal,
    /// The remote copy wins.
    AcceptRemote,
}

/// A record copy carrying its update time and its payload text.
pub struct VersionedRecord {
    /// The record's update time, as stored (sortable text, such as an
    /// RFC 3339 timestamp, whose text order is its time order).
    pub updated_at: String,
    /// The serialized record itself; the core does not look inside.
    pub body: String,
}

/// `a` comes strictly after `b` in character order.
pub open spec fn lex_gt(a: Seq<char>, b: Seq<char>) -> bool
    decreases a.len(),
{
    if a.len() == 0 {
        false
    } else if b.len() == 0 {
        true
    } else if a[0] != b[0] {
        a[0] > b[0]
    } else {
        lex_gt(a.drop_first(), b.drop_first())
    }
}

/// Compare two strings in character order: is `a` strictly greater?
pub fn str_lex_gt(a: &str, b: &str) -> (r: bool)
    ensures
        r == lex_gt(a@, b@),
{
    let an = a.unicode_len();
    let bn = b.unicode_len();
    let mut i: usize = 0;
    proof {
        assert(a@.skip(0) =~= a@);
        assert(b@.skip(0) =~= b@);
    }
    loop
        invariant
            an == a@.len(),
            bn == b@.len(),
            i <= an,
            i <= bn,
            forall|k: int| 0 <= k < i ==> a@[k] == b@[k],
            lex_gt(a@, b@) == lex_gt(a@.skip(i as int), b@.skip(i as int)),
        decreases an - i,
    {
        if i >= an {
            proof {
                assert(a@.skip(i as int).len() == 0);
            }
            return false;
        }
        if i >= bn {
            proof {
                assert(b@.skip(i as int).len() == 0);
                assert(a@.skip(i as int).len() > 0);
            }
            return true;
        }
        let ca = a.get_char(i);
        let cb = b.get_char(i);
        proof {
            assert(a@.skip(i as int)[0] == a@[i as int]);
            assert(b@.skip(i as int)[0] == b@[i as int]);
            assert(a@.skip(i as int).drop_first() =~= a@.skip(i + 1));
            assert(b@.skip(i as int).drop_first() =~= b@.skip(i + 1));
        }
        if ca != cb {
            return ca > cb;
        }
        i = i + 1;
    }
}

/// Resolve a conflict between the local and the remote copy of a record:
/// the strategy picks the winner, and last-writer-wins compares the stored
/// update times, keeping the local copy on a tie.
pub fn resolve_conflict<'a>(
    local: &'a VersionedRecord,
    remote: &'a VersionedRecord,
    strategy: ConflictStrategy,
) -> (r: &'a VersionedRecord)
    ensures
        strategy == ConflictStrategy::KeepLocal ==> r == local,
        strategy == ConflictStrategy::AcceptRemote ==> r == remote,
        strategy == ConflictStrategy::LastWriterWins ==> r == if lex_gt(
            remote.updated_at@,
            local.updated_at@,
        ) {
            remote
        } else {
            local
        },
{
    match strategy {
        ConflictStrategy::LastWriterWins => {
            if str_lex_gt(remote.updated_at.as_str(), local.updated_at.as_str()) {
                remote
            } else {
                local
            }
        },
        ConflictStrategy::KeepLocal => local,
        ConflictStrategy::AcceptRemote => remote,
    }
}

/// The live-update endpoint for a backend base address: the scheme turns
/// from HTTP into its socket counterpart and the socket path and key are
/// appended.
pub open spec fn spec_ws_url(base: Seq<char>, key: Seq<char>) -> Seq<char> {
    let stem = if base.len() >= 8 && base.take(8) == "https://"@ {
        "wss://"@ + base.skip(8)
    } else if base.len() >= 7 && base.take(7) == "http://"@ {
        "ws://"@ + base.skip(7)
    } else {
        base
    };
    stem + "/realtime/v1/websocket?apikey="@ + key + "&vsn=1.0.0"@
}

/// Does `s` start with the given prefix?
pub fn str_starts_with(s: &str, p: &str) -> (r: bool)
    ensures
        r == (p@.len() <= s@.len() && s@.take(p@.len() as int) == p@),
{
    let n = s.unicode_len();
    let m = p.unicode_len();
    if m > n {
        return false;
    }
    for i in 0..m
        invariant
            n == s@.len(),
            m == p@.len(),
            m <= n,
            forall|k: int| 0 <= k < i ==> s@[k] == p@[k],
    {
        if s.get_char(i) != p.get_char(i) {
            proof {
                assert(s@.take(m as int)[i as int] != p@[i as int]);
            }
            return false;
        }
    }
    proof {
        assert(s@.take(m as int) =~= p@);
    }
    true
}

/// Build the live-update endpoint address from the backend base address and
/// the anonymous key.
pub fn realtime_ws_url(supabase_url: &str, anon_key: &str) -> (r: String)
    ensures
        r@ == spec_ws_url(supabase_url@, anon_key@),
{
    let mut out = String::new();
    let n = supabase_url.unicode_len();
    if str_starts_with(supabase_url, "https://") {
        proof {
            reveal_strlit("https://");
        }
        out.append("wss://");
        out.append(supabase_url.substring_char(8, n));
    } else if str_starts_with(supabase_url, "http://") {
        proof {
            reveal_strlit("https://");
            reveal_strlit("http://");
        }
        out.append("ws://");
        out.append(supabase_url.substring_char(7, n));
    } else {
        proof {
            reveal_strlit("https://");
            reveal_strlit("http://");
        }
        out.append(supabase_url);
    }
    out.append("/realtime/v1/websocket?apikey=");
    out.append(anon_key);
    out.append("&vsn=1.0.0");
    proof {
        assert(out@ =~= spec_ws_url(supabase_url@, anon_key@));
    }
    out
}

} // verus!
