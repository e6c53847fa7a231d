//! Audit records in the token event standard, and their JSON form.
use vstd::prelude::*;
use vstd::string::StringExecFns;

verus! {

/// The version of the event standard in use.
pub const NFT_METADATA_SPEC: &'static str = "1.0.0";

/// The name of the event standard in use.
pub const NFT_STANDARD_NAME: &'static str = "nep171";

/// The kind of an event and its records.
#[non_exhaustive]
pub enum EventLogVariant {
    NftMint(Vec<NftMintLog>),
    NftTransfer(Vec<NftTransferLog>),
}

/// One event: the standard it follows, its version, and its records.
pub struct EventLog {
    pub standard: String,
    pub version: String,
    pub event: EventLogVariant,
}

/// Tokens minted to one owner.
pub struct NftMintLog {
    pub owner_id: String,
    pub token_ids: Vec<String>,
    pub memo: Option<String>,
}

/// Tokens moved from one owner to another.
pub struct NftTransferLog {
    /// The approved account that made the transfer, when not the owner.
    pub authorized_id: Option<String>,
    pub old_owner_id: String,
    pub new_owner_id: String,
    pub token_ids: Vec<String>,
    pub memo: Option<String>,
}

/// The JSON string literal for `s`: quoted, with JSON escapes.
pub uninterp spec fn json_string(s: Seq<char>) -> Seq<char>;

/// Relies on `serde_json::to_string` applied to a `str`, which writes the
/// JSON string literal for it and cannot fail for a `str`.
#[verifier::external_body]
fn json_quote(s: &str) -> (r: String)
    ensures
        r@ == json_string(s@),
{
    match serde_json::to_string(s) {
        Ok(j) => j,
        Err(_) => String::new(),
    }
}

/// The parts joined with commas.
pub open spec fn joined(parts: Seq<Seq<char>>) -> Seq<char>
    decreases parts.len(),
{
    if parts.len() == 0 {
        Seq::empty()
    } else if parts.len() == 1 {
        parts[0]
    } else {
        joined(parts.drop_last()) + ","@ + parts.last()
    }
}

/// A JSON array of strings.
pub open spec fn strings_json(s: Seq<String>) -> Seq<char> {
    "["@ + joined(s.map_values(|x: String| json_string(x@))) + "]"@
}

/// `,"name":value` when the value is present, nothing otherwise.
pub open spec fn optional_field(name: Seq<char>, v: Option<String>) -> Seq<char> {
    match v {
        Some(x) => ","@ + name + json_string(x@),
        None => Seq::empty(),
    }
}

/// The JSON object for a mint record.
pub open spec fn mint_log_json(l: NftMintLog) -> Seq<char> {
    "{\"owner_id\":"@ + json_string(l.owner_id@) + ",\"token_ids\":"@ + strings_json(l.token_ids@)
        + optional_field("\"memo\":"@, l.memo) + "}"@
}

/// The JSON object for a transfer record.
pub open spec fn transfer_log_json(l: NftTransferLog) -> Seq<char> {
    "{"@ + match l.authorized_id {
        Some(a) => "\"authorized_id\":"@ + json_string(a@) + ","@,
        None => Seq::empty(),
    } + "\"old_owner_id\":"@ + json_string(l.old_owner_id@) + ",\"new_owner_id\":"@ + json_string(
        l.new_owner_id@,
    ) + ",\"token_ids\":"@ + strings_json(l.token_ids@) + optional_field("\"memo\":"@, l.memo)
        + "}"@
}

/// The kind and records of an event, as members of the event's JSON object.
pub open spec fn event_json(e: EventLogVariant) -> Seq<char> {
    match e {
        EventLogVariant::NftMint(v) => "\"event\":\"nft_mint\",\"data\":["@ + joined(
            v@.map_values(|l: NftMintLog| mint_log_json(l)),
        ) + "]"@,
        EventLogVariant::NftTransfer(v) => "\"event\":\"nft_transfer\",\"data\":["@ + joined(
            v@.map_values(|l: NftTransferLog| transfer_log_json(l)),
        ) + "]"@,
    }
}

/// The JSON object for an event.
pub open spec fn log_json(l: EventLog) -> Seq<char> {
    "{\"standard\":"@ + json_string(l.standard@) + ",\"version\":"@ + json_string(l.version@) + ","@
        + event_json(l.event) + "}"@
}

/// The line that announces an event in the host's log.
pub open spec fn log_line(l: EventLog) -> Seq<char> {
    "EVENT_JSON:"@ + log_json(l)
}

fn push_json_string(out: &mut String, s: &str)
    ensures
        final(out)@ == old(out)@ + json_string(s@),
{
    let q = json_quote(s);
    out.append(q.as_str());
}

fn push_strings(out: &mut String, v: &Vec<String>)
    ensures
        final(out)@ == old(out)@ + strings_json(v@),
{
    let ghost start = out@;
    let ghost parts = v@.map_values(|x: String| json_string(x@));
    out.append("[");
    let mut i: usize = 0;
    while i < v.len()
        invariant
            i <= v.len(),
            parts == v@.map_values(|x: String| json_string(x@)),
            out@ == start + "["@ + joined(parts.subrange(0, i as int)),
        decreases v.len() - i,
    {
        if i > 0 {
            out.append(",");
        }
        push_json_string(out, v[i].as_str());
        proof {
            let p = parts.subrange(0, i + 1);
            assert(p.drop_last() =~= parts.subrange(0, i as int));
            if i == 0 {
                assert(out@ =~= start + "["@ + joined(p));
            } else {
                assert(out@ =~= start + "["@ + joined(p));
            }
        }
        i = i + 1;
    }
    out.append("]");
    proof {
        assert(parts.subrange(0, v.len() as int) =~= parts);
        assert(out@ =~= start + strings_json(v@));
    }
}

fn push_optional_field(out: &mut String, name: &str, v: &Option<String>)
    ensures
        final(out)@ == old(out)@ + optional_field(name@, *v),
{
    match v {
        Some(x) => {
            let ghost start = out@;
            out.append(",");
            out.append(name);
            push_json_string(out, x.as_str());
            proof {
                assert(out@ =~= start + optional_field(name@, *v));
            }
        },
        None => {
            proof {
                assert(out@ =~= out@ + optional_field(name@, *v));
            }
        },
    }
}

fn push_mint_log(out: &mut String, l: &NftMintLog)
    ensures
        final(out)@ == old(out)@ + mint_log_json(*l),
{
    let ghost start = out@;
    out.append("{\"owner_id\":");
    push_json_string(out, l.owner_id.as_str());
    out.append(",\"token_ids\":");
    push_strings(out, &l.token_ids);
    push_optional_field(out, "\"memo\":", &l.memo);
    out.append("}");
    proof {
        assert(out@ =~= start + mint_log_json(*l));
    }
}

fn push_transfer_log(out: &mut String, l: &NftTransferLog)
    ensures
        final(out)@ == old(out)@ + transfer_log_json(*l),
{
    let ghost start = out@;
    out.append("{");
    let ghost after_open = out@;
    match &l.authorized_id {
        Some(a) => {
            out.append("\"authorized_id\":");
            push_json_string(out, a.as_str());
            out.append(",");
        },
        None => {},
    }
    assert(out@ =~= after_open + match l.authorized_id {
        Some(a) => "\"authorized_id\":"@ + json_string(a@) + ","@,
        None => Seq::<char>::empty(),
    });
    out.append("\"old_owner_id\":");
    push_json_string(out, l.old_owner_id.as_str());
    out.append(",\"new_owner_id\":");
    push_json_string(out, l.new_owner_id.as_str());
    out.append(",\"token_ids\":");
    push_strings(out, &l.token_ids);
    push_optional_field(out, "\"memo\":", &l.memo);
    out.append("}");
    proof {
        assert(out@ =~= start + transfer_log_json(*l));
    }
}

fn push_mint_logs(out: &mut String, v: &Vec<NftMintLog>)
    ensures
        final(out)@ == old(out)@ + joined(v@.map_values(|l: NftMintLog| mint_log_json(l))),
{
    let ghost start = out@;
    let ghost parts = v@.map_values(|l: NftMintLog| mint_log_json(l));
    let mut i: usize = 0;
    while i < v.len()
        invariant
            i <= v.len(),
            parts == v@.map_values(|l: NftMintLog| mint_log_json(l)),
            out@ == start + joined(parts.subrange(0, i as int)),
        decreases v.len() - i,
    {
        if i > 0 {
            out.append(",");
        }
        push_mint_log(out, &v[i]);
        proof {
            let p = parts.subrange(0, i + 1);
            assert(p.drop_last() =~= parts.subrange(0, i as int));
            assert(out@ =~= start + joined(p));
        }
        i = i + 1;
    }
    proof {
        assert(parts.subrange(0, v.len() as int) =~= parts);
    }
}

fn push_transfer_logs(out: &mut String, v: &Vec<NftTransferLog>)
    ensures
        final(out)@ == old(out)@ + joined(v@.map_values(|l: NftTransferLog| transfer_log_json(l))),
{
    let ghost start = out@;
    let ghost parts = v@.map_values(|l: NftTransferLog| transfer_log_json(l));
    let mut i: usize = 0;
    while i < v.len()
        invariant
            i <= v.len(),
            parts == v@.map_values(|l: NftTransferLog| transfer_log_json(l)),
            out@ == start + joined(parts.subrange(0, i as int)),
        decreases v.len() - i,
    {
        if i > 0 {
            out.append(",");
        }
        push_transfer_log(out, &v[i]);
        proof {
            let p = parts.subrange(0, i + 1);
            assert(p.drop_last() =~= parts.subrange(0, i as int));
            assert(out@ =~= start + joined(p));
        }
        i = i + 1;
    }
    proof {
        assert(parts.subrange(0, v.len() as int) =~= parts);
    }
}

/// The characters of an optional string.
pub open spec fn opt_view(o: Option<String>) -> Option<Seq<char>> {
    match o {
        Some(s) => Some(s@),
        None => None,
    }
}

/// `l` is the standard's record of one token moved from `old_owner` to
/// `new_owner`.
pub open spec fn is_transfer_event(
    l: EventLog,
    authorized_id: Option<Seq<char>>,
    old_owner: Seq<char>,
    new_owner: Seq<char>,
    token_id: Seq<char>,
    memo: Option<Seq<char>>,
) -> bool {
    &&& l.standard@ == NFT_STANDARD_NAME@
    &&& l.version@ == NFT_METADATA_SPEC@
    &&& match l.event {
        EventLogVariant::NftTransfer(v) => {
            &&& v@.len() == 1
            &&& opt_view(v@[0].authorized_id) == authorized_id
            &&& v@[0].old_owner_id@ == old_owner
            &&& v@[0].new_owner_id@ == new_owner
            &&& v@[0].token_ids@.len() == 1
            &&& v@[0].token_ids@[0]@ == token_id
            &&& opt_view(v@[0].memo) == memo
        },
        _ => false,
    }
}

/// The standard's record of `token_id` moved from `old_owner_id` to
/// `new_owner_id`.
pub fn transfer_event(
    authorized_id: Option<String>,
    old_owner_id: String,
    new_owner_id: String,
    token_id: String,
    memo: Option<String>,
) -> (l: EventLog)
    ensures
        is_transfer_event(
            l,
            opt_view(authorized_id),
            old_owner_id@,
            new_owner_id@,
            token_id@,
            opt_view(memo),
        ),
{
    let mut token_ids: Vec<String> = Vec::new();
    token_ids.push(token_id);
    let record = NftTransferLog { authorized_id, old_owner_id, new_owner_id, token_ids, memo };
    let mut records: Vec<NftTransferLog> = Vec::new();
    records.push(record);
    EventLog {
        standard: NFT_STANDARD_NAME.to_owned(),
        version: NFT_METADATA_SPEC.to_owned(),
        event: EventLogVariant::NftTransfer(records),
    }
}

impl EventLog {
    /// The line that announces this event in the host's log:
    /// `EVENT_JSON:` followed by the event's JSON object.
    pub fn to_string(&self) -> (r: String)
        ensures
            r@ == log_line(*self),
    {
        let mut out = String::new();
        out.append("EVENT_JSON:");
        out.append("{\"standard\":");
        push_json_string(&mut out, self.standard.as_str());
        out.append(",\"version\":");
        push_json_string(&mut out, self.version.as_str());
        out.append(",");
        let ghost before_event = out@;
        match &self.event {
            EventLogVariant::NftMint(v) => {
                out.append("\"event\":\"nft_mint\",\"data\":[");
                push_mint_logs(&mut out, v);
                out.append("]");
            },
            EventLogVariant::NftTransfer(v) => {
                out.append("\"event\":\"nft_transfer\",\"data\":[");
                push_transfer_logs(&mut out, v);
                out.append("]");
            },
        }
        assert(out@ =~= before_event + event_json(self.event));
        out.append("}");
        proof {
            assert(out@ =~= log_line(*self));
        }
        out
    }
}

} // verus!
