//! Bridged networking: which host interface the guest's frames go out on, which
//! frames pass in either direction, and which address the file server of the bridge
//! may take.
use vstd::prelude::*;
use crate::bytes::copy_bytes;
use crate::config::NetMode;
use crate::config::NfsConfig;
use crate::net_addr::span_of;
use crate::net_addr::Ipv4Addr;
use crate::text::chars_of;
use crate::text::contains_chars;
use crate::text::lower_chars;
use crate::text::owned;
use crate::text::parse_number;
use crate::text::push_decimal;
use crate::text::push_hex;
use crate::text::push_padded;
use crate::text::same_chars;
use crate::text::string_of;
use crate::text::trim_chars;

verus! {

// ---------------------------------------------------------------------------
// The frame rings
// ---------------------------------------------------------------------------

/// The reading end of a ring of `rtrb`.
#[verifier::external_type_specification]
#[verifier::external_body]
#[verifier::reject_recursive_types(T)]
pub struct ExConsumer<T>(rtrb::Consumer<T>);

/// The writing end of a ring of `rtrb`.
#[verifier::external_type_specification]
#[verifier::external_body]
#[verifier::reject_recursive_types(T)]
pub struct ExProducer<T>(rtrb::Producer<T>);

/// The slots of a ring that its writing end knows to be free: what
/// `rtrb::Producer::cached_slots` counts. The reading end can only free more.
pub uninterp spec fn known_free(p: rtrb::Producer<Vec<u8>>) -> nat;

/// The frames that a writing end has put in its ring, oldest first.
pub uninterp spec fn put_in(p: rtrb::Producer<Vec<u8>>) -> Seq<Seq<u8>>;

/// The frames that a reading end has taken out of its ring, oldest first.
pub uninterp spec fn taken_out(c: rtrb::Consumer<Vec<u8>>) -> Seq<Seq<u8>>;

/// The frames in a ring that its reading end knows of, oldest first: as many as
/// `rtrb::Consumer::cached_slots` counts. The writing end can only add more behind them.
pub uninterp spec fn known_waiting(c: rtrb::Consumer<Vec<u8>>) -> Seq<Seq<u8>>;

/// `rtrb::Producer::slots`: the number of free slots, and no fewer than were known to be
/// free. The writing end remembers it, and only its own pushes use slots up. It stores
/// nothing.
#[verifier::external_body]
fn free_slots(p: &mut rtrb::Producer<Vec<u8>>) -> (r: usize)
    ensures
        known_free(*final(p)) == r,
        r >= known_free(*old(p)),
        put_in(*final(p)) == put_in(*old(p)),
{
    p.slots()
}

/// `rtrb::Producer::push`: stores a frame behind the others, or hands it back if the
/// ring is full. With a slot known to be free it is stored, in that slot.
#[verifier::external_body]
fn push_frame(p: &mut rtrb::Producer<Vec<u8>>, frame: Vec<u8>) -> (r: Result<(), Vec<u8>>)
    ensures
        known_free(*old(p)) > 0 ==> r is Ok && known_free(*final(p)) == known_free(*old(p)) - 1,
        match r {
            Ok(_) => put_in(*final(p)) == put_in(*old(p)).push(frame@),
            Err(back) => {
                &&& back == frame
                &&& known_free(*final(p)) == 0
                &&& put_in(*final(p)) == put_in(*old(p))
            },
        },
{
    match p.push(frame) {
        Ok(()) => Ok(()),
        Err(rtrb::PushError::Full(back)) => Err(back),
    }
}

/// `rtrb::Consumer::pop`: takes the oldest frame out, or nothing if the ring is empty. A
/// frame that is known to be there is taken, the oldest first. With none known it looks
/// for new ones; whether there are any, and which, is up to the thread at the other end.
#[verifier::external_body]
fn pop_frame(c: &mut rtrb::Consumer<Vec<u8>>) -> (r: Option<Vec<u8>>)
    ensures
        known_waiting(*old(c)).len() > 0 ==> {
            &&& r matches Some(frame) && frame@ == known_waiting(*old(c))[0]
            &&& known_waiting(*final(c)) == known_waiting(*old(c)).skip(1)
        },
        r is None ==> known_waiting(*final(c)).len() == 0,
        taken_out(*final(c)) == match r {
            Some(frame) => taken_out(*old(c)).push(frame@),
            None => taken_out(*old(c)),
        },
{
    c.pop().ok()
}

// ---------------------------------------------------------------------------
// Interfaces
// ---------------------------------------------------------------------------

/// A host interface.
#[derive(Clone, Debug, PartialEq, Eq)]
pub struct NetInterface {
    pub name: String,
    pub description: Option<String>,
    /// Its addresses as text.
    pub addresses: Vec<String>,
    pub up: bool,
    pub running: bool,
    pub loopback: bool,
}

/// The texts of `parts` with `sep` between them, of the first `n`.
pub open spec fn joined(parts: Seq<Seq<char>>, sep: Seq<char>, n: int) -> Seq<char>
    decreases n,
{
    if n <= 0 || n > parts.len() {
        seq![]
    } else if n == 1 {
        parts[0]
    } else {
        joined(parts, sep, n - 1) + sep + parts[n - 1]
    }
}

fn push_joined(out: &mut String, parts: &Vec<String>, sep: &str)
    ensures
        final(out)@ == old(out)@ + joined(
            crate::text::texts(parts@),
            sep@,
            parts.len() as int,
        ),
{
    let ghost before = out@;
    let ghost all = crate::text::texts(parts@);
    let mut i: usize = 0;
    while i < parts.len()
        invariant
            i <= parts.len(),
            all == crate::text::texts(parts@),
            out@ == before + joined(all, sep@, i as int),
        decreases parts.len() - i,
    {
        let ghost here = out@;
        if i > 0 {
            out.append(sep);
        }
        out.append(parts[i].as_str());
        proof {
            assert(all[i as int] == parts@[i as int]@);
            assert(out@ =~= before + joined(all, sep@, i + 1));
        }
        i = i + 1;
    }
}

/// What an interface is tagged with, in order.
pub open spec fn tags(i: NetInterface) -> Seq<Seq<char>> {
    let a = if i.up {
        seq!["up"@]
    } else {
        seq![]
    };
    let b = if i.running {
        a.push("running"@)
    } else {
        a
    };
    if i.loopback {
        b.push("loopback"@)
    } else {
        b
    }
}

/// The tags of an interface as they stand behind its name.
pub open spec fn tag_text(i: NetInterface) -> Seq<char> {
    if tags(i).len() == 0 {
        seq![]
    } else {
        " ["@ + joined(tags(i), ","@, tags(i).len() as int) + "]"@
    }
}

fn push_tags(out: &mut String, i: &NetInterface)
    ensures
        final(out)@ == old(out)@ + tag_text(*i),
{
    let mut t: Vec<String> = Vec::new();
    if i.up {
        t.push(owned("up"));
    }
    if i.running {
        t.push(owned("running"));
    }
    if i.loopback {
        t.push(owned("loopback"));
    }
    proof {
        assert(crate::text::texts(t@) =~= tags(*i));
    }
    if t.len() > 0 {
        let ghost before = out@;
        out.append(" [");
        push_joined(out, &t, ",");
        out.append("]");
        proof {
            assert(out@ =~= before + tag_text(*i));
        }
    } else {
        proof {
            assert(out@ + tag_text(*i) =~= out@);
        }
    }
}

/// What follows a failed or empty listing.
pub open spec fn listing_hint() -> Seq<char> {
    "On Linux you may need root or CAP_NET_RAW; on Windows, install a\nWinPcap-compatible driver (WinPcap or Npcap).\n"@
}

/// The lines on one interface in the listing; `n` is its number.
pub open spec fn listing_lines(i: NetInterface, n: int) -> Seq<char> {
    let head = "  "@ + crate::text::padded(n as nat, 2, ' ') + ". "@ + i.name@ + tag_text(i)
        + "\n"@;
    let described = match i.description {
        Some(d) => head + "        "@ + d@ + "\n"@,
        None => head,
    };
    if i.addresses.len() > 0 {
        described + "        addr: "@ + joined(
            crate::text::texts(i.addresses@),
            ", "@,
            i.addresses.len() as int,
        ) + "\n"@
    } else {
        described
    }
}

/// The lines on the first `n` interfaces.
pub open spec fn listing(ifaces: Seq<NetInterface>, n: int) -> Seq<char>
    decreases n,
{
    if n <= 0 || n > ifaces.len() {
        seq![]
    } else {
        listing(ifaces, n - 1) + listing_lines(ifaces[n - 1], n)
    }
}

/// The text on a list of interfaces, or on why there is none.
pub open spec fn listing_text(list: Result<Vec<NetInterface>, String>) -> Seq<char> {
    match list {
        Ok(ifaces) => if ifaces.len() == 0 {
            "No network interfaces found (libpcap returned an empty list).\n"@ + listing_hint()
        } else {
            "Available network interfaces for PCAP bridging:\n(configure with `[network] pcap_interface = \"<index-or-name>\"` in iris.toml;\n e.g. pcap_interface = \"1\" selects the first interface below)\n\n"@
                + listing(ifaces@, ifaces.len() as int)
        },
        Err(e) => "Failed to list network interfaces: "@ + e@ + "\n"@ + listing_hint(),
    }
}

#[verifier::spinoff_prover]
#[verifier::rlimit(50)]
fn push_listing_lines(out: &mut String, i: &NetInterface, n: u64)
    ensures
        final(out)@ == old(out)@ + listing_lines(*i, n as int),
{
    let ghost before = out@;
    out.append("  ");
    push_padded(out, n, 2, ' ');
    out.append(". ");
    out.append(i.name.as_str());
    push_tags(out, i);
    out.append("\n");
    match &i.description {
        Some(d) => {
            out.append("        ");
            out.append(d.as_str());
            out.append("\n");
        },
        None => {},
    }
    if i.addresses.len() > 0 {
        out.append("        addr: ");
        push_joined(out, &i.addresses, ", ");
        out.append("\n");
    }
    proof {
        assert(out@ =~= before + listing_lines(*i, n as int));
    }
}

/// A list of interfaces as a table, or a text on why there is none.
pub fn format_interfaces(list: &Result<Vec<NetInterface>, String>) -> (r: String)
    ensures
        r@ == listing_text(*list),
{
    let hint = "On Linux you may need root or CAP_NET_RAW; on Windows, install a\nWinPcap-compatible driver (WinPcap or Npcap).\n";
    match list {
        Ok(ifaces) => {
            if ifaces.len() == 0 {
                let mut out = owned(
                    "No network interfaces found (libpcap returned an empty list).\n",
                );
                out.append(hint);
                return out;
            }
            let mut out = owned(
                "Available network interfaces for PCAP bridging:\n(configure with `[network] pcap_interface = \"<index-or-name>\"` in iris.toml;\n e.g. pcap_interface = \"1\" selects the first interface below)\n\n",
            );
            let ghost before = out@;
            let mut i: usize = 0;
            while i < ifaces.len()
                invariant
                    i <= ifaces.len(),
                    out@ == before + listing(ifaces@, i as int),
                decreases ifaces.len() - i,
            {
                push_listing_lines(&mut out, &ifaces[i], i as u64 + 1);
                i = i + 1;
                proof {
                    assert(out@ =~= before + listing(ifaces@, i as int));
                }
            }
            out
        },
        Err(e) => {
            let mut out = owned("Failed to list network interfaces: ");
            out.append(e.as_str());
            out.append("\n");
            out.append(hint);
            out
        },
    }
}

/// The first interface from `from` on that is up, runs, is no loopback and has an
/// address.
pub open spec fn first_ready(ifaces: Seq<NetInterface>, from: int) -> Option<int>
    decreases ifaces.len() - from,
{
    if from < 0 || from >= ifaces.len() {
        None
    } else if ifaces[from].up && ifaces[from].running && !ifaces[from].loopback
        && ifaces[from].addresses.len() > 0 {
        Some(from)
    } else {
        first_ready(ifaces, from + 1)
    }
}

/// The first interface from `from` on that is up and is no loopback.
pub open spec fn first_up(ifaces: Seq<NetInterface>, from: int) -> Option<int>
    decreases ifaces.len() - from,
{
    if from < 0 || from >= ifaces.len() {
        None
    } else if ifaces[from].up && !ifaces[from].loopback {
        Some(from)
    } else {
        first_up(ifaces, from + 1)
    }
}

/// The interface that is taken where none is configured.
pub open spec fn picked(ifaces: Seq<NetInterface>) -> Option<int> {
    match first_ready(ifaces, 0) {
        Some(i) => Some(i),
        None => first_up(ifaces, 0),
    }
}

/// What an error of the choice says.
pub open spec fn none_suitable() -> Seq<char> {
    "no suitable non-loopback interface found; set [network] pcap_interface"@
}

/// The interface that is taken where none is configured: the first that is up, runs,
/// is no loopback and has an address, else the first that is up and is no loopback.
pub fn auto_pick(ifaces: &[NetInterface]) -> (r: Result<String, String>)
    ensures
        match r {
            Ok(name) => picked(ifaces@) matches Some(i) && 0 <= i < ifaces@.len() && name@
                == ifaces@[i].name@,
            Err(e) => picked(ifaces@) is None && e@ == none_suitable(),
        },
{
    let mut i: usize = 0;
    while i < ifaces.len()
        invariant
            i <= ifaces.len(),
            first_ready(ifaces@, 0) == first_ready(ifaces@, i as int),
        decreases ifaces.len() - i,
    {
        let f = &ifaces[i];
        if f.up && f.running && !f.loopback && f.addresses.len() > 0 {
            return Ok(f.name.clone());
        }
        i = i + 1;
    }
    let mut i: usize = 0;
    while i < ifaces.len()
        invariant
            i <= ifaces.len(),
            first_ready(ifaces@, 0) is None,
            first_up(ifaces@, 0) == first_up(ifaces@, i as int),
        decreases ifaces.len() - i,
    {
        let f = &ifaces[i];
        if f.up && !f.loopback {
            return Ok(f.name.clone());
        }
        i = i + 1;
    }
    Err(owned("no suitable non-loopback interface found; set [network] pcap_interface"))
}

/// The first interface of a name, from `from` on.
pub open spec fn first_named(ifaces: Seq<NetInterface>, name: Seq<char>, from: int) -> Option<int>
    decreases ifaces.len() - from,
{
    if from < 0 || from >= ifaces.len() {
        None
    } else if ifaces[from].name@ == name {
        Some(from)
    } else {
        first_named(ifaces, name, from + 1)
    }
}

/// Which interface is picked where none is configured: one that is up, runs, has an address
/// and is no loopback, and none before it is such; where there is none such, the first that is
/// up and no loopback; and none only where every interface is down or a loopback.
pub proof fn law_which_interface_is_picked(ifaces: Seq<NetInterface>)
    ensures
        match picked(ifaces) {
            Some(i) => {
                &&& 0 <= i < ifaces.len()
                &&& ifaces[i].up && !ifaces[i].loopback
                &&& ({
                    ||| ifaces[i].running && ifaces[i].addresses.len() > 0 && forall|j: int|
                        0 <= j < i ==> !(#[trigger] ifaces[j]).up || !ifaces[j].running
                            || ifaces[j].loopback || ifaces[j].addresses.len() == 0
                    ||| (forall|j: int|
                        0 <= j < ifaces.len() ==> !(#[trigger] ifaces[j]).up || !ifaces[j].running
                            || ifaces[j].loopback || ifaces[j].addresses.len() == 0) && forall|
                        j: int,
                    |
                        0 <= j < i ==> !(#[trigger] ifaces[j]).up || ifaces[j].loopback
                })
            },
            None => forall|j: int|
                0 <= j < ifaces.len() ==> !(#[trigger] ifaces[j]).up || ifaces[j].loopback,
        },
{
    lemma_first_ready(ifaces, 0);
    lemma_first_up(ifaces, 0);
}

proof fn lemma_first_ready(ifaces: Seq<NetInterface>, from: int)
    requires
        0 <= from <= ifaces.len(),
    ensures
        match first_ready(ifaces, from) {
            Some(i) => {
                &&& from <= i < ifaces.len()
                &&& ifaces[i].up && ifaces[i].running && !ifaces[i].loopback
                    && ifaces[i].addresses.len() > 0
                &&& forall|j: int|
                    from <= j < i ==> !(#[trigger] ifaces[j]).up || !ifaces[j].running
                        || ifaces[j].loopback || ifaces[j].addresses.len() == 0
            },
            None => forall|j: int|
                from <= j < ifaces.len() ==> !(#[trigger] ifaces[j]).up || !ifaces[j].running
                    || ifaces[j].loopback || ifaces[j].addresses.len() == 0,
        },
    decreases ifaces.len() - from,
{
    if from < ifaces.len() {
        lemma_first_ready(ifaces, from + 1);
    }
}

proof fn lemma_first_up(ifaces: Seq<NetInterface>, from: int)
    requires
        0 <= from <= ifaces.len(),
    ensures
        match first_up(ifaces, from) {
            Some(i) => {
                &&& from <= i < ifaces.len()
                &&& ifaces[i].up && !ifaces[i].loopback
                &&& forall|j: int|
                    from <= j < i ==> !(#[trigger] ifaces[j]).up || ifaces[j].loopback
            },
            None => forall|j: int|
                from <= j < ifaces.len() ==> !(#[trigger] ifaces[j]).up || ifaces[j].loopback,
        },
    decreases ifaces.len() - from,
{
    if from < ifaces.len() {
        lemma_first_up(ifaces, from + 1);
    }
}

/// What a configured interface comes to: a number selects from the list, counted from
/// one; any other text is the name of an interface, listed or not; no text leaves the
/// choice to `picked`. Left is the name, right the error.
pub open spec fn resolved(configured: Option<Seq<char>>, ifaces: Seq<NetInterface>) -> Result<
    Seq<char>,
    Seq<char>,
> {
    let text = match configured {
        Some(c) => crate::text::trimmed(c),
        None => seq![],
    };
    if text.len() == 0 {
        match picked(ifaces) {
            Some(i) => Ok(ifaces[i].name@),
            None => Err(none_suitable()),
        }
    } else {
        match crate::text::parsed(text, 10, usize::MAX as nat) {
            Some(n) => if n == 0 || n > ifaces.len() {
                Err(
                    "pcap_interface index "@ + crate::text::decimal(n) + " is out of range (1..="@
                        + crate::text::decimal(ifaces.len())
                        + "); run `iris --list-net-interfaces`"@,
                )
            } else {
                Ok(ifaces[n - 1].name@)
            },
            None => Ok(text),
        }
    }
}

/// What a configured interface comes to. The list is numbered as the user sees it. A
/// name that is not listed is tried as it stands.
pub fn resolve_interface(configured: Option<&str>, ifaces: &[NetInterface]) -> (r: Result<
    String,
    String,
>)
    ensures
        match r {
            Ok(name) => resolved(
                match configured {
                    Some(c) => Some(c@),
                    None => None,
                },
                ifaces@,
            ) == Ok::<Seq<char>, Seq<char>>(name@),
            Err(e) => resolved(
                match configured {
                    Some(c) => Some(c@),
                    None => None,
                },
                ifaces@,
            ) == Err::<Seq<char>, Seq<char>>(e@),
        },
{
    let text: Vec<char> = match configured {
        Some(c) => trim_chars(c),
        None => Vec::new(),
    };
    if text.len() == 0 {
        return auto_pick(ifaces);
    }
    match parse_number(&text, 10, usize::MAX as u64) {
        Some(n) => {
            let n: usize = n as usize;
            if n == 0 || n > ifaces.len() {
                let mut e = owned("pcap_interface index ");
                push_decimal(&mut e, n as u64);
                e.append(" is out of range (1..=");
                push_decimal(&mut e, ifaces.len() as u64);
                e.append("); run `iris --list-net-interfaces`");
                Err(e)
            } else {
                Ok(ifaces[n - 1].name.clone())
            }
        },
        None => Ok(string_of(&text)),
    }
}

/// A number selects the interface that the listing gives that number, and no other.
pub proof fn law_numbers_select_from_the_listing(n: nat, ifaces: Seq<NetInterface>)
    requires
        1 <= n <= ifaces.len() <= usize::MAX,
    ensures
        resolved(Some(crate::text::decimal(n)), ifaces) == Ok::<Seq<char>, Seq<char>>(
            ifaces[n - 1].name@,
        ),
{
    crate::text::law_decimal_round_trip(n, usize::MAX as nat);
    crate::text::lemma_decimal_is_trimmed(n);
}

/// White space round a configured interface does not matter; a blank one, like none, leaves
/// the choice to the picking.
pub proof fn law_white_space_round_an_interface(
    front: Seq<char>,
    name: Seq<char>,
    back: Seq<char>,
    ifaces: Seq<NetInterface>,
)
    requires
        forall|i: int| 0 <= i < front.len() ==> crate::text::is_white_space(#[trigger] front[i]),
        forall|i: int| 0 <= i < back.len() ==> crate::text::is_white_space(#[trigger] back[i]),
        name.len() > 0 ==> !crate::text::is_white_space(name[0]) && !crate::text::is_white_space(
            name.last(),
        ),
    ensures
        resolved(Some(front + name + back), ifaces) == resolved(Some(name), ifaces),
        resolved(Some(front + back), ifaces) == resolved(None, ifaces),
        resolved(None, ifaces) == match picked(ifaces) {
            Some(i) => Ok::<Seq<char>, Seq<char>>(ifaces[i].name@),
            None => Err(none_suitable()),
        },
{
    crate::text::law_trimming(front, name, back);
    crate::text::law_trimmed_texts_stay(name);
    crate::text::law_trimming(front, seq![], back);
    assert(front + Seq::<char>::empty() + back =~= front + back);
}

/// What any configured interface comes to, once the white space round it is gone: nothing
/// leaves the choice to the picking; a number, however it is written, selects from the list,
/// counted from one, or is an error; anything else is a name. Only a name can be unlisted.
pub proof fn law_configured_interfaces(configured: Seq<char>, ifaces: Seq<NetInterface>)
    ensures
        ({
            let text = crate::text::trimmed(configured);
            let number = crate::text::parsed(text, 10, usize::MAX as nat);
            let r = resolved(Some(configured), ifaces);
            &&& text.len() == 0 ==> r == resolved(None, ifaces)
            &&& text.len() > 0 ==> match number {
                Some(n) => {
                    &&& 1 <= n <= ifaces.len() ==> r == Ok::<Seq<char>, Seq<char>>(
                        ifaces[n - 1].name@,
                    )
                    &&& n == 0 || n > ifaces.len() ==> r is Err
                },
                None => r == Ok::<Seq<char>, Seq<char>>(text),
            }
            &&& unlisted(configured, ifaces) <==> text.len() > 0 && number is None && forall|k: int|
                0 <= k < ifaces.len() ==> (#[trigger] ifaces[k]).name@ != text
        }),
{
    lemma_first_named(ifaces, crate::text::trimmed(configured), 0);
}

/// A text that is no number is the name of the interface, as it stands, listed or not.
pub proof fn law_names_are_taken_as_they_stand(
    name: Seq<char>,
    ifaces: Seq<NetInterface>,
    i: int,
)
    requires
        name.len() > 0,
        !crate::text::is_white_space(name[0]),
        !crate::text::is_white_space(name.last()),
        0 <= i < name.len(),
        name[i] < '0' || '9' < name[i],
        i > 0 || name[0] != '+',
    ensures
        resolved(Some(name), ifaces) == Ok::<Seq<char>, Seq<char>>(name),
        unlisted(name, ifaces) <==> forall|k: int|
            0 <= k < ifaces.len() ==> (#[trigger] ifaces[k]).name@ != name,
{
    crate::text::law_trimmed_texts_stay(name);
    crate::text::law_digits(name[i]);
    crate::text::law_no_number(name, i, 10, usize::MAX as nat);
    lemma_first_named(ifaces, name, 0);
}

proof fn lemma_first_named(ifaces: Seq<NetInterface>, name: Seq<char>, from: int)
    requires
        0 <= from <= ifaces.len(),
    ensures
        first_named(ifaces, name, from) is None <==> forall|k: int|
            from <= k < ifaces.len() ==> (#[trigger] ifaces[k]).name@ != name,
    decreases ifaces.len() - from,
{
    if from < ifaces.len() {
        lemma_first_named(ifaces, name, from + 1);
        if ifaces[from].name@ != name && first_named(ifaces, name, from + 1) is None {
            assert forall|k: int| from <= k < ifaces.len() implies (#[trigger] ifaces[k]).name@
                != name by {}
        }
    }
}

/// A number that the listing does not have selects nothing, and is no name either: it is an
/// error, and nothing is warned of.
pub proof fn law_numbers_off_the_listing_are_refused(n: nat, ifaces: Seq<NetInterface>)
    requires
        n == 0 || n > ifaces.len(),
        n <= usize::MAX,
    ensures
        resolved(Some(crate::text::decimal(n)), ifaces) is Err,
        !unlisted(crate::text::decimal(n), ifaces),
{
    crate::text::law_decimal_round_trip(n, usize::MAX as nat);
    crate::text::lemma_decimal_is_trimmed(n);
}

/// Whether a configured interface is a name that is not listed.
pub open spec fn unlisted(configured: Seq<char>, ifaces: Seq<NetInterface>) -> bool {
    let text = crate::text::trimmed(configured);
    &&& text.len() > 0
    &&& crate::text::parsed(text, 10, usize::MAX as nat) is None
    &&& first_named(ifaces, text, 0) is None
}

/// The warning on a configured interface that is not listed; none if there is nothing
/// to warn of.
pub fn unlisted_warning(configured: &str, ifaces: &[NetInterface]) -> (r: Option<String>)
    ensures
        match r {
            Some(w) => unlisted(configured@, ifaces@) && w@ == "iris: pcap_interface '"@
                + crate::text::trimmed(configured@)
                + "' not found in the interface list; trying it verbatim. Run `iris --list-net-interfaces` to see valid names/indices."@,
            None => !unlisted(configured@, ifaces@),
        },
{
    let text = trim_chars(configured);
    if text.len() == 0 || parse_number(&text, 10, usize::MAX as u64).is_some() {
        return None;
    }
    let mut i: usize = 0;
    while i < ifaces.len()
        invariant
            i <= ifaces.len(),
            text@ == crate::text::trimmed(configured@),
            first_named(ifaces@, text@, 0) == first_named(ifaces@, text@, i as int),
        decreases ifaces.len() - i,
    {
        if same_chars(&chars_of(ifaces[i].name.as_str()), &text) {
            return None;
        }
        i = i + 1;
    }
    let mut w = owned("iris: pcap_interface '");
    w.append(string_of(&text).as_str());
    w.append(
        "' not found in the interface list; trying it verbatim. Run `iris --list-net-interfaces` to see valid names/indices.",
    );
    Some(w)
}

/// The interface to bridge onto, from the list that the host gave.
pub fn select_interface(
    configured: &Option<String>,
    list: &Result<Vec<NetInterface>, String>,
) -> (r: Result<String, String>)
    ensures
        match list {
            Ok(ifaces) => match r {
                Ok(name) => resolved(crate::text::opt_text(*configured), ifaces@) == Ok::<
                    Seq<char>,
                    Seq<char>,
                >(name@),
                Err(e) => resolved(crate::text::opt_text(*configured), ifaces@) == Err::<
                    Seq<char>,
                    Seq<char>,
                >(e@),
            },
            Err(why) => r matches Err(e) && e@ == why@,
        },
{
    match list {
        Ok(ifaces) => match configured {
            Some(c) => resolve_interface(Some(c.as_str()), ifaces.as_slice()),
            None => resolve_interface(None, ifaces.as_slice()),
        },
        Err(e) => Err(e.clone()),
    }
}

/// Texts are joined with the separator between each and the next, and none before the first or
/// behind the last.
pub proof fn law_joined_texts(parts: Seq<Seq<char>>, sep: Seq<char>, more: Seq<char>)
    ensures
        joined(seq![], sep, 0) == Seq::<char>::empty(),
        joined(seq![more], sep, 1) == more,
        parts.len() > 0 ==> joined(parts.push(more), sep, parts.len() as int + 1) == joined(
            parts,
            sep,
            parts.len() as int,
        ) + sep + more,
{
    lemma_joined_prefix(parts.push(more), parts, sep, parts.len() as int);
}

proof fn lemma_joined_prefix(a: Seq<Seq<char>>, b: Seq<Seq<char>>, sep: Seq<char>, n: int)
    requires
        0 <= n <= a.len(),
        n <= b.len(),
        forall|i: int| 0 <= i < n ==> #[trigger] a[i] == b[i],
    ensures
        joined(a, sep, n) == joined(b, sep, n),
    decreases n,
{
    if n > 1 {
        lemma_joined_prefix(a, b, sep, n - 1);
    }
}

/// The tags behind a name say, in this order, whether the interface is up, whether it runs and
/// whether it is the loopback; one that is none of these has no brackets.
pub proof fn law_tags(i: NetInterface)
    ensures
        i.up && i.running && i.loopback ==> tag_text(i) == " ["@ + ("up"@ + ","@ + "running"@
            + ","@ + "loopback"@) + "]"@,
        i.up && i.running && !i.loopback ==> tag_text(i) == " ["@ + ("up"@ + ","@ + "running"@)
            + "]"@,
        i.up && !i.running && i.loopback ==> tag_text(i) == " ["@ + ("up"@ + ","@ + "loopback"@)
            + "]"@,
        i.up && !i.running && !i.loopback ==> tag_text(i) == " ["@ + "up"@ + "]"@,
        !i.up && i.running && i.loopback ==> tag_text(i) == " ["@ + ("running"@ + ","@
            + "loopback"@) + "]"@,
        !i.up && i.running && !i.loopback ==> tag_text(i) == " ["@ + "running"@ + "]"@,
        !i.up && !i.running && i.loopback ==> tag_text(i) == " ["@ + "loopback"@ + "]"@,
        !i.up && !i.running && !i.loopback ==> tag_text(i).len() == 0,
{
    reveal_with_fuel(joined, 4);
}

/// What a line of the listing says: the number, the name and the tags; then the description,
/// if there is one, and the addresses, if there are any, on lines of their own.
pub proof fn law_lines_of_the_listing(i: NetInterface, n: int)
    ensures
        ({
            let head = "  "@ + crate::text::padded(n as nat, 2, ' ') + ". "@ + i.name@ + tag_text(i)
                + "\n"@;
            let addresses = joined(
                crate::text::texts(i.addresses@),
                ", "@,
                i.addresses.len() as int,
            );
            &&& i.description is None && i.addresses.len() == 0 ==> listing_lines(i, n) == head
            &&& i.description matches Some(d) ==> (i.addresses.len() == 0 ==> listing_lines(i, n)
                == head + "        "@ + d@ + "\n"@)
            &&& i.description is None && i.addresses.len() > 0 ==> listing_lines(i, n) == head
                + "        addr: "@ + addresses + "\n"@
            &&& i.description matches Some(d) ==> (i.addresses.len() > 0 ==> listing_lines(i, n)
                == head + "        "@ + d@ + "\n"@ + "        addr: "@ + addresses + "\n"@)
        }),
{
}

/// The listing gives each interface its lines, in order and numbered from one; the menu does
/// so too.
pub proof fn law_listings_are_numbered(ifaces: Seq<NetInterface>, n: int)
    requires
        0 <= n < ifaces.len(),
    ensures
        listing(ifaces, 0) == Seq::<char>::empty(),
        menu(ifaces, 0) == Seq::<char>::empty(),
        listing(ifaces, n + 1) == listing(ifaces, n) + listing_lines(ifaces[n], n + 1),
        menu(ifaces, n + 1) == menu(ifaces, n) + menu_lines(ifaces[n], n + 1),
{
}

/// A list with interfaces is shown as a listing of all of them; an empty one and a failed one
/// say so, the failed one with its reason, and both with the same hint.
pub proof fn law_what_a_list_says(list: Result<Vec<NetInterface>, String>)
    ensures
        list matches Err(e) ==> listing_text(list) == "Failed to list network interfaces: "@ + e@
            + "\n"@ + listing_hint(),
        list matches Ok(ifaces) ==> (ifaces.len() == 0 ==> listing_text(list)
            == "No network interfaces found (libpcap returned an empty list).\n"@
            + listing_hint()),
        list matches Ok(ifaces) ==> (ifaces.len() > 0 ==> crate::text::has_substring(
            listing_text(list),
            listing(ifaces@, ifaces.len() as int),
        )),
{
    if let Ok(ifaces) = list {
        if ifaces.len() > 0 {
            let head = "Available network interfaces for PCAP bridging:\n(configure with `[network] pcap_interface = \"<index-or-name>\"` in iris.toml;\n e.g. pcap_interface = \"1\" selects the first interface below)\n\n"@;
            let all = listing(ifaces@, ifaces.len() as int);
            let none = Seq::<char>::empty();
            crate::text::law_substrings(head, all, none);
            assert(head + all + none =~= listing_text(list));
        }
    }
}

// ---------------------------------------------------------------------------
// Choosing at the console
// ---------------------------------------------------------------------------

/// The lines on one interface in the menu; `n` is its number.
pub open spec fn menu_lines(i: NetInterface, n: int) -> Seq<char> {
    let named = "  "@ + crate::text::padded(n as nat, 2, ' ') + ") "@ + i.name@ + tag_text(i);
    let head = if i.addresses.len() > 0 {
        named + "  "@ + joined(
            crate::text::texts(i.addresses@),
            ", "@,
            i.addresses.len() as int,
        ) + "\n"@
    } else {
        named + "\n"@
    };
    match i.description {
        Some(d) => if d@.len() > 0 {
            head + "        "@ + d@ + "\n"@
        } else {
            head
        },
        None => head,
    }
}

/// The lines on the first `n` interfaces.
pub open spec fn menu(ifaces: Seq<NetInterface>, n: int) -> Seq<char>
    decreases n,
{
    if n <= 0 || n > ifaces.len() {
        seq![]
    } else {
        menu(ifaces, n - 1) + menu_lines(ifaces[n - 1], n)
    }
}

/// The menu with its prompt.
pub open spec fn menu_text(ifaces: Seq<NetInterface>) -> Seq<char> {
    "\nPCAP networking: no [network] pcap_interface configured.\nSelect the host interface to bridge the guest onto:\n\n"@
        + menu(ifaces, ifaces.len() as int) + "\nInterface number (1-"@ + crate::text::decimal(
        ifaces.len(),
    ) + ", blank = auto-pick): "@
}

/// What a line of the menu says: the number, the name, the tags and the addresses, if there
/// are any; then the description, if there is one that is not empty, on a line of its own.
pub proof fn law_lines_of_the_menu(i: NetInterface, n: int)
    ensures
        ({
            let named = "  "@ + crate::text::padded(n as nat, 2, ' ') + ") "@ + i.name@ + tag_text(
                i,
            );
            let addresses = joined(
                crate::text::texts(i.addresses@),
                ", "@,
                i.addresses.len() as int,
            );
            let head = if i.addresses.len() > 0 {
                named + "  "@ + addresses + "\n"@
            } else {
                named + "\n"@
            };
            &&& i.description is None ==> menu_lines(i, n) == head
            &&& i.description matches Some(d) ==> (d@.len() == 0 ==> menu_lines(i, n) == head)
            &&& i.description matches Some(d) ==> (d@.len() > 0 ==> menu_lines(i, n) == head
                + "        "@ + d@ + "\n"@)
        }),
{
}

/// The menu shows every interface, and its prompt says which numbers there are.
pub proof fn law_the_menu_of_interfaces(ifaces: Seq<NetInterface>)
    ensures
        crate::text::has_substring(menu_text(ifaces), menu(ifaces, ifaces.len() as int)),
        crate::text::has_substring(
            menu_text(ifaces),
            "\nInterface number (1-"@ + crate::text::decimal(ifaces.len())
                + ", blank = auto-pick): "@,
        ),
{
    let head = "\nPCAP networking: no [network] pcap_interface configured.\nSelect the host interface to bridge the guest onto:\n\n"@;
    let all = menu(ifaces, ifaces.len() as int);
    let prompt = "\nInterface number (1-"@ + crate::text::decimal(ifaces.len())
        + ", blank = auto-pick): "@;
    let none = Seq::<char>::empty();
    assert(menu_text(ifaces) =~= head + all + prompt);
    assert(menu_text(ifaces) =~= (head + all) + prompt + none);
    crate::text::law_substrings(head, all, prompt);
    crate::text::law_substrings(head + all, prompt, none);
}

#[verifier::spinoff_prover]
#[verifier::rlimit(50)]
fn push_menu_lines(out: &mut String, i: &NetInterface, n: u64)
    ensures
        final(out)@ == old(out)@ + menu_lines(*i, n as int),
{
    let ghost before = out@;
    out.append("  ");
    push_padded(out, n, 2, ' ');
    out.append(") ");
    out.append(i.name.as_str());
    push_tags(out, i);
    if i.addresses.len() > 0 {
        out.append("  ");
        push_joined(out, &i.addresses, ", ");
    }
    out.append("\n");
    match &i.description {
        Some(d) => {
            if chars_of(d.as_str()).len() > 0 {
                out.append("        ");
                out.append(d.as_str());
                out.append("\n");
            }
        },
        None => {},
    }
    proof {
        assert(out@ =~= before + menu_lines(*i, n as int));
    }
}

/// The menu of interfaces with its prompt; none if there are no interfaces.
pub fn interface_menu(ifaces: &[NetInterface]) -> (r: Option<String>)
    ensures
        match r {
            Some(m) => ifaces@.len() > 0 && m@ == menu_text(ifaces@),
            None => ifaces@.len() == 0,
        },
{
    if ifaces.len() == 0 {
        return None;
    }
    let mut out = owned(
        "\nPCAP networking: no [network] pcap_interface configured.\nSelect the host interface to bridge the guest onto:\n\n",
    );
    let ghost before = out@;
    let mut i: usize = 0;
    while i < ifaces.len()
        invariant
            i <= ifaces.len(),
            out@ == before + menu(ifaces@, i as int),
        decreases ifaces.len() - i,
    {
        push_menu_lines(&mut out, &ifaces[i], i as u64 + 1);
        i = i + 1;
        proof {
            assert(out@ =~= before + menu(ifaces@, i as int));
        }
    }
    out.append("\nInterface number (1-");
    push_decimal(&mut out, ifaces.len() as u64);
    out.append(", blank = auto-pick): ");
    Some(out)
}

/// The menu to show where no interface is configured: none without a terminal, a list
/// or an interface, and then the interface is picked.
pub fn prompt_for_interface(
    terminal: bool,
    list: &Result<Vec<NetInterface>, String>,
) -> (r: Option<String>)
    ensures
        match r {
            Some(m) => {
                &&& terminal
                &&& list matches Ok(ifaces) && ifaces@.len() > 0 && m@ == menu_text(ifaces@)
            },
            None => !terminal || list is Err || (list matches Ok(ifaces) && ifaces@.len() == 0),
        },
{
    if !terminal {
        return None;
    }
    match list {
        Ok(ifaces) => interface_menu(ifaces.as_slice()),
        Err(_) => None,
    }
}

/// What was answered to the menu.
#[derive(Clone, Debug, PartialEq, Eq)]
pub enum MenuChoice {
    /// Nothing: the interface is picked.
    Blank,
    /// This interface.
    Interface(String),
    /// Something that selects no interface, which is then picked.
    Invalid(String),
}

/// The interface that an answer to the menu selects, if it selects one.
pub open spec fn answered_with(line: Seq<char>, ifaces: Seq<NetInterface>) -> Option<Seq<char>> {
    match crate::text::parsed(crate::text::trimmed(line), 10, usize::MAX as nat) {
        Some(n) => if 1 <= n <= ifaces.len() {
            Some(ifaces[n - 1].name@)
        } else {
            None
        },
        None => None,
    }
}

/// An answer selects the interface that the menu gives its number, with white space round the
/// number or not; a number that the menu does not have, and an answer that is none, select
/// nothing.
pub proof fn law_answers_to_the_menu(
    front: Seq<char>,
    n: nat,
    back: Seq<char>,
    ifaces: Seq<NetInterface>,
)
    requires
        n <= usize::MAX,
        forall|i: int| 0 <= i < front.len() ==> crate::text::is_white_space(#[trigger] front[i]),
        forall|i: int| 0 <= i < back.len() ==> crate::text::is_white_space(#[trigger] back[i]),
    ensures
        1 <= n <= ifaces.len() ==> answered_with(front + crate::text::decimal(n) + back, ifaces)
            == Some(ifaces[n - 1].name@),
        n == 0 || n > ifaces.len() ==> answered_with(
            front + crate::text::decimal(n) + back,
            ifaces,
        ) is None,
        answered_with(front + back, ifaces) is None,
{
    crate::text::lemma_decimal_digits(n);
    let d = crate::text::decimal(n);
    assert(crate::text::digit_value(d[0], 10) is Some);
    assert(crate::text::digit_value(d[d.len() - 1], 10) is Some);
    crate::text::law_trimming(front, d, back);
    crate::text::law_decimal_round_trip(n, usize::MAX as nat);
    crate::text::law_trimming(front, seq![], back);
    assert(front + Seq::<char>::empty() + back =~= front + back);
    crate::text::law_reading_numbers(seq![], '0', 10, usize::MAX as nat);
}

/// Reads the answer to the menu.
pub fn menu_choice(line: &str, ifaces: &[NetInterface]) -> (r: MenuChoice)
    ensures
        ({
            let text = crate::text::trimmed(line@);
            let number = crate::text::parsed(text, 10, usize::MAX as nat);
            match r {
                MenuChoice::Blank => text.len() == 0,
                MenuChoice::Interface(name) => {
                    &&& text.len() > 0
                    &&& number matches Some(n) && 1 <= n <= ifaces@.len() && name@ == ifaces@[n
                        - 1].name@
                },
                MenuChoice::Invalid(shown) => {
                    &&& text.len() > 0
                    &&& shown@ == text
                    &&& number matches Some(n) ==> n == 0 || n > ifaces@.len()
                },
            }
        }),
        match r {
            MenuChoice::Interface(name) => answered_with(line@, ifaces@) == Some(name@),
            _ => answered_with(line@, ifaces@) is None,
        },
{
    let text = trim_chars(line);
    if text.len() == 0 {
        return MenuChoice::Blank;
    }
    match parse_number(&text, 10, usize::MAX as u64) {
        Some(n) => {
            if 1 <= n && n <= ifaces.len() as u64 {
                return MenuChoice::Interface(ifaces[n as usize - 1].name.clone());
            }
        },
        None => {},
    }
    MenuChoice::Invalid(string_of(&text))
}

// ---------------------------------------------------------------------------
// The engine
// ---------------------------------------------------------------------------

/// How the capture stands.
#[derive(Clone, Copy, Debug, PartialEq, Eq, Structural)]
pub enum PcapStatus {
    /// Frames are captured.
    Active,
    /// The host refused the capture: it can be elevated.
    PermissionDenied,
    /// The device is absent or cannot be opened.
    DeviceError,
}

/// Whether the requested mode is bridged.
pub fn is_pcap_mode(mode: NetMode) -> (r: bool)
    ensures
        r == (mode == NetMode::Pcap),
{
    match mode {
        NetMode::Pcap => true,
        NetMode::Nat => false,
    }
}

/// Whether the text of an error speaks of a permission, in capitals or not.
pub open spec fn speaks_of_permission(msg: Seq<char>) -> bool {
    let m = crate::text::lowered(msg);
    ||| crate::text::has_substring(m, "permission denied"@)
    ||| crate::text::has_substring(m, "operation not permitted"@)
    ||| crate::text::has_substring(m, "not permitted"@)
    ||| crate::text::has_substring(m, "eacces"@)
    ||| crate::text::has_substring(m, "eperm"@)
}

/// An error speaks of a permission wherever in it one of the four wordings stands, in
/// capitals or not, and not otherwise.
pub proof fn law_refused_captures(msg: Seq<char>)
    ensures
        speaks_of_permission(msg) <==> {
            let m = crate::text::lowered(msg);
            ||| exists|at: int| crate::text::stands_at(m, "permission denied"@, at)
            ||| exists|at: int| crate::text::stands_at(m, "not permitted"@, at)
            ||| exists|at: int| crate::text::stands_at(m, "eacces"@, at)
            ||| exists|at: int| crate::text::stands_at(m, "eperm"@, at)
        },
        forall|other: Seq<char>|
            crate::text::lowered(other) == crate::text::lowered(msg) ==> speaks_of_permission(msg)
                == #[trigger] speaks_of_permission(other),
{
    let m = crate::text::lowered(msg);
    if crate::text::has_substring(m, "operation not permitted"@) {
        reveal_strlit("operation not permitted");
        reveal_strlit("not permitted");
        let at = choose|at: int| crate::text::stands_at(m, "operation not permitted"@, at);
        let long = m.subrange(at, at + 23);
        assert(long == "operation not permitted"@);
        assert forall|k: int| 0 <= k < 13 implies m.subrange(at + 10, at + 23)[k]
            == "not permitted"@[k] by {
            assert(long[k + 10] == m[at + 10 + k]);
        }
        assert(m.subrange(at + 10, at + 23) =~= "not permitted"@);
        assert(crate::text::stands_at(m, "not permitted"@, at + 10));
    }
}

/// What the text of an error on opening a capture comes to. The library has no kind of
/// error for a refused permission; its text is all there is.
pub fn classify_open_error(msg: &str) -> (r: PcapStatus)
    ensures
        r == if speaks_of_permission(msg@) {
            PcapStatus::PermissionDenied
        } else {
            PcapStatus::DeviceError
        },
{
    let m = lower_chars(&chars_of(msg));
    if contains_chars(&m, &chars_of("permission denied")) || contains_chars(
        &m,
        &chars_of("operation not permitted"),
    ) || contains_chars(&m, &chars_of("not permitted")) || contains_chars(&m, &chars_of("eacces"))
        || contains_chars(&m, &chars_of("eperm")) {
        PcapStatus::PermissionDenied
    } else {
        PcapStatus::DeviceError
    }
}

/// The status after the first attempt to open the capture.
pub fn open_status(opened: &Result<(), String>) -> (r: PcapStatus)
    ensures
        r == match opened {
            Ok(_) => PcapStatus::Active,
            Err(e) => if speaks_of_permission(e@) {
                PcapStatus::PermissionDenied
            } else {
                PcapStatus::DeviceError
            },
        },
{
    match opened {
        Ok(_) => PcapStatus::Active,
        Err(e) => classify_open_error(e.as_str()),
    }
}

/// What a live change of the interface does.
#[derive(Clone, Copy, Debug, PartialEq, Eq, Structural)]
pub enum ReopenAction {
    /// Capture on the new interface from now on; the status is active.
    UseNew,
    /// Keep the capture and the status that there are, so that a wrong name does not
    /// cost the guest its network.
    KeepOld,
}

/// A station address as text: six octets of two digits, with colons.
pub open spec fn mac_text(mac: Seq<u8>, n: int) -> Seq<char>
    decreases n,
{
    if n <= 0 || n > mac.len() {
        seq![]
    } else if n == 1 {
        crate::text::hex(mac[0] as nat, 2)
    } else {
        mac_text(mac, n - 1) + ":"@ + crate::text::hex(mac[n - 1] as nat, 2)
    }
}

fn push_mac(out: &mut String, mac: &[u8; 6])
    ensures
        final(out)@ == old(out)@ + mac_text(mac@, 6),
{
    let ghost before = out@;
    let mut i: usize = 0;
    while i < 6
        invariant
            i <= 6,
            out@ == before + mac_text(mac@, i as int),
        decreases 6 - i,
    {
        if i > 0 {
            out.append(":");
        }
        push_hex(out, mac[i] as u64, 2);
        i = i + 1;
        proof {
            assert(out@ =~= before + mac_text(mac@, i as int));
        }
    }
}

/// The text of an address: two digits for each octet, with a colon behind each but the last.
proof fn lemma_mac_text(mac: Seq<u8>, n: int)
    requires
        1 <= n <= mac.len(),
    ensures
        mac_text(mac, n).len() == 3 * n - 1,
        forall|i: int|
            0 <= i < n ==> #[trigger] mac_text(mac, n).subrange(3 * i, 3 * i + 2)
                == crate::text::hex(mac[i] as nat, 2),
        forall|i: int| 0 <= i < n - 1 ==> #[trigger] mac_text(mac, n)[3 * i + 2] == ':',
    decreases n,
{
    reveal_strlit(":");
    let t = mac_text(mac, n);
    crate::text::law_hex_digits(mac[n - 1] as nat, 2);
    if n == 1 {
        assert(t.subrange(0, 2) =~= t);
    } else {
        lemma_mac_text(mac, n - 1);
        let front = mac_text(mac, n - 1);
        assert forall|i: int| 0 <= i < n implies #[trigger] t.subrange(3 * i, 3 * i + 2)
            == crate::text::hex(mac[i] as nat, 2) by {
            if i < n - 1 {
                assert(t.subrange(3 * i, 3 * i + 2) =~= front.subrange(3 * i, 3 * i + 2));
            } else {
                assert(t.subrange(3 * i, 3 * i + 2) =~= crate::text::hex(mac[i] as nat, 2));
            }
        }
        assert forall|i: int| 0 <= i < n - 1 implies #[trigger] t[3 * i + 2] == ':' by {
            if i < n - 2 {
                assert(front[3 * i + 2] == ':');
            }
        }
    }
}

/// An address is written as six pairs of hexadecimal digits with colons between them, which
/// read back as its octets in their order.
pub proof fn law_addresses_are_written_by_octets(mac: Seq<u8>, i: int)
    requires
        mac.len() == 6,
        0 <= i < 6,
    ensures
        mac_text(mac, 6).len() == 17,
        crate::text::parsed(mac_text(mac, 6).subrange(3 * i, 3 * i + 2), 16, 255) == Some(
            mac[i] as nat,
        ),
        i < 5 ==> mac_text(mac, 6)[3 * i + 2] == ':',
{
    lemma_mac_text(mac, 6);
    crate::text::law_hex_octets(mac[i] as nat);
}

/// A station address as text.
pub fn mac_str(mac: &[u8; 6]) -> (r: String)
    ensures
        r@ == mac_text(mac@, 6),
{
    let mut s = String::new();
    push_mac(&mut s, mac);
    proof {
        assert(s@ =~= mac_text(mac@, 6));
    }
    s
}

/// The capture filter for a guest: frames to it, and those to everyone.
pub open spec fn filter_text(mac: Seq<u8>) -> Seq<char> {
    "ether dst "@ + mac_text(mac, 6) + " or ether broadcast or ether multicast"@
}

/// A frame of the guest on its way to the wire.
#[derive(Debug)]
pub struct TxFrame {
    pub frame: Vec<u8>,
    /// The capture filter to install first, on the frame that showed the guest's
    /// address.
    pub filter: Option<String>,
    /// It carries IPv4, and counts as traffic of the guest.
    pub counts: bool,
}

/// Where a frame of the guest goes.
#[derive(Clone, Copy, Debug, PartialEq, Eq, Structural)]
pub enum TxRoute {
    /// Out on the host interface.
    Wire,
    /// Nowhere: the file server answered it, and the guest was woken this often.
    Answered(usize),
}

/// Whether a frame carries IPv4.
pub open spec fn carries_ip(frame: Seq<u8>) -> bool {
    frame.len() >= 14 && frame[12] == 8 && frame[13] == 0
}

/// The source address of a frame.
pub open spec fn source(frame: Seq<u8>) -> Seq<u8> {
    frame.subrange(6, 12)
}

/// The guest's address after a frame of it was seen: the one that is known, else that
/// of the frame, if it is long enough to have one.
pub open spec fn learned(mac: Option<Seq<u8>>, frame: Seq<u8>) -> Option<Seq<u8>> {
    if mac is Some || frame.len() < 12 {
        mac
    } else {
        Some(source(frame))
    }
}

/// Whether a captured frame goes to the guest: it is long enough, and is none that the
/// guest sent, which the capture hands back.
pub open spec fn wanted(mac: Option<Seq<u8>>, frame: Seq<u8>) -> bool {
    frame.len() >= 14 && mac != Some(source(frame))
}

/// The frames of a ring once one more was put in it, or was not.
pub open spec fn with_frame(ring: Seq<Seq<u8>>, frame: Seq<u8>, put: bool) -> Seq<Seq<u8>> {
    if put {
        ring.push(frame)
    } else {
        ring
    }
}

/// A frame that is put in a ring stands whole behind all that were there, which stay as they
/// are; one that is not leaves no trace.
pub proof fn law_frames_arrive_whole_and_in_order(ring: Seq<Seq<u8>>, frame: Seq<u8>, i: int)
    ensures
        with_frame(ring, frame, true).len() == ring.len() + 1,
        with_frame(ring, frame, true).last() == frame,
        0 <= i < ring.len() ==> with_frame(ring, frame, true)[i] == ring[i],
        with_frame(ring, frame, false) == ring,
{
}

/// The bridge between the guest's frame rings and a capture.
pub struct PcapEngine {
    pcap_interface: Option<String>,
    tx_cons: rtrb::Consumer<Vec<u8>>,
    rx_prod: rtrb::Producer<Vec<u8>>,
    guest_mac: Option<[u8; 6]>,
    nfs_host: Option<(Ipv4Addr, NfsConfig)>,
}

impl PcapEngine {
    /// The configured interface.
    pub closed spec fn configured(self) -> Option<Seq<char>> {
        crate::text::opt_text(self.pcap_interface)
    }

    /// The guest's address, once a frame of it was seen.
    pub closed spec fn mac(self) -> Option<Seq<u8>> {
        match self.guest_mac {
            Some(m) => Some(m@),
            None => None,
        }
    }

    /// The address and the share of the file server on the bridge.
    pub closed spec fn nfs(self) -> Option<(Ipv4Addr, NfsConfig)> {
        self.nfs_host
    }

    /// Slots for received frames that are known to be free.
    pub closed spec fn room(self) -> nat {
        known_free(self.rx_prod)
    }

    /// The frames that were put in the guest's ring, oldest first.
    pub closed spec fn delivered(self) -> Seq<Seq<u8>> {
        put_in(self.rx_prod)
    }

    /// The frames that were taken from the guest, oldest first.
    pub closed spec fn accepted(self) -> Seq<Seq<u8>> {
        taken_out(self.tx_cons)
    }

    /// The frames of the guest that are known to wait in its ring, oldest first.
    pub closed spec fn waiting(self) -> Seq<Seq<u8>> {
        known_waiting(self.tx_cons)
    }

    /// An engine on two frame rings. It has a file server if there is both a share and
    /// an address for it.
    pub fn new(
        pcap_interface: Option<String>,
        nfs: Option<NfsConfig>,
        nfs_pcap_ip: Option<Ipv4Addr>,
        tx_cons: rtrb::Consumer<Vec<u8>>,
        rx_prod: rtrb::Producer<Vec<u8>>,
    ) -> (r: Self)
        ensures
            r.configured() == crate::text::opt_text(pcap_interface),
            r.mac() is None,
            r.nfs() == match (nfs, nfs_pcap_ip) {
                (Some(n), Some(ip)) => Some((ip, n)),
                _ => None,
            },
            r.room() == known_free(rx_prod),
            r.delivered() == put_in(rx_prod),
            r.accepted() == taken_out(tx_cons),
            r.waiting() == known_waiting(tx_cons),
    {
        let nfs_host = match (nfs, nfs_pcap_ip) {
            (Some(n), Some(ip)) => Some((ip, n)),
            _ => None,
        };
        PcapEngine { pcap_interface, tx_cons, rx_prod, guest_mac: None, nfs_host }
    }

    /// The interface to open, from the list that the host gave.
    pub fn interface(&self, list: &Result<Vec<NetInterface>, String>) -> (r: Result<String, String>)
        ensures
            match list {
                Ok(ifaces) => match r {
                    Ok(name) => resolved(self.configured(), ifaces@) == Ok::<Seq<char>, Seq<char>>(
                        name@,
                    ),
                    Err(e) => resolved(self.configured(), ifaces@) == Err::<Seq<char>, Seq<char>>(
                        e@,
                    ),
                },
                Err(why) => r matches Err(e) && e@ == why@,
            },
    {
        select_interface(&self.pcap_interface, list)
    }

    /// The address and the share of the file server on the bridge.
    pub fn nfs_host(&self) -> (r: &Option<(Ipv4Addr, NfsConfig)>)
        ensures
            *r == self.nfs(),
    {
        &self.nfs_host
    }

    /// The interface was changed while the machine runs. Nothing else changes.
    pub fn set_interface(&mut self, pcap_interface: Option<String>)
        ensures
            final(self).configured() == crate::text::opt_text(pcap_interface),
            final(self).mac() == old(self).mac(),
            final(self).nfs() == old(self).nfs(),
            final(self).room() == old(self).room(),
            final(self).delivered() == old(self).delivered(),
            final(self).accepted() == old(self).accepted(),
            final(self).waiting() == old(self).waiting(),
    {
        self.pcap_interface = pcap_interface;
    }

    /// What follows the attempt to open the changed interface.
    pub fn reopened(opened: bool) -> (r: ReopenAction)
        ensures
            r == if opened {
                ReopenAction::UseNew
            } else {
                ReopenAction::KeepOld
            },
    {
        if opened {
            ReopenAction::UseNew
        } else {
            ReopenAction::KeepOld
        }
    }

    /// Takes note of a frame of the guest, and says what becomes of it. The first
    /// frame that is long enough shows the guest's address, and brings the capture
    /// filter for it.
    pub fn on_tx(&mut self, frame: Vec<u8>) -> (r: TxFrame)
        ensures
            r.frame == frame,
            r.counts == carries_ip(frame@),
            final(self).mac() == learned(old(self).mac(), frame@),
            match r.filter {
                Some(f) => {
                    &&& old(self).mac() is None
                    &&& final(self).mac() matches Some(m) && f@ == filter_text(m)
                },
                None => final(self).mac() == old(self).mac(),
            },
            final(self).configured() == old(self).configured(),
            final(self).nfs() == old(self).nfs(),
            final(self).room() == old(self).room(),
            final(self).delivered() == old(self).delivered(),
            final(self).accepted() == old(self).accepted(),
            final(self).waiting() == old(self).waiting(),
    {
        let mut filter: Option<String> = None;
        if frame.len() >= 12 && self.guest_mac.is_none() {
            let mac: [u8; 6] = [frame[6], frame[7], frame[8], frame[9], frame[10], frame[11]];
            proof {
                assert(mac@ =~= source(frame@));
            }
            self.guest_mac = Some(mac);
            let mut prog = owned("ether dst ");
            push_mac(&mut prog, &mac);
            prog.append(" or ether broadcast or ether multicast");
            filter = Some(prog);
        }
        let counts = frame.len() >= 14 && frame[12] == 8 && frame[13] == 0;
        TxFrame { frame, filter, counts }
    }

    /// Takes the guest's next frame from its ring, if there is one. A frame that is known
    /// to wait is always taken, the oldest first; whether the guest has sent more is up
    /// to it. What becomes of the frame is what `on_tx` says.
    pub fn next_tx(&mut self) -> (r: Option<TxFrame>)
        ensures
            old(self).waiting().len() > 0 ==> {
                &&& r matches Some(t) && t.frame@ == old(self).waiting()[0]
                &&& final(self).waiting() == old(self).waiting().skip(1)
            },
            r is None ==> final(self).waiting().len() == 0,
            match r {
                Some(t) => {
                    &&& final(self).accepted() == old(self).accepted().push(t.frame@)
                    &&& t.counts == carries_ip(t.frame@)
                    &&& final(self).mac() == learned(old(self).mac(), t.frame@)
                    &&& match t.filter {
                        Some(f) => {
                            &&& old(self).mac() is None
                            &&& final(self).mac() matches Some(m) && f@ == filter_text(m)
                        },
                        None => final(self).mac() == old(self).mac(),
                    }
                },
                None => {
                    &&& final(self).accepted() == old(self).accepted()
                    &&& final(self).mac() == old(self).mac()
                },
            },
            final(self).configured() == old(self).configured(),
            final(self).nfs() == old(self).nfs(),
            final(self).room() == old(self).room(),
            final(self).delivered() == old(self).delivered(),
    {
        match pop_frame(&mut self.tx_cons) {
            Some(frame) => Some(self.on_tx(frame)),
            None => None,
        }
    }

    /// Drops the guest's next frame, for a bridge without a capture: its ring does not
    /// back up. A frame that is known to wait is always dropped, the oldest first. False if
    /// there was none.
    pub fn drop_tx(&mut self) -> (r: bool)
        ensures
            old(self).waiting().len() > 0 ==> {
                &&& r
                &&& final(self).accepted().last() == old(self).waiting()[0]
                &&& final(self).waiting() == old(self).waiting().skip(1)
            },
            !r ==> final(self).waiting().len() == 0,
            if r {
                &&& final(self).accepted().len() == old(self).accepted().len() + 1
                &&& final(self).accepted().drop_last() == old(self).accepted()
            } else {
                final(self).accepted() == old(self).accepted()
            },
            final(self).mac() == old(self).mac(),
            final(self).configured() == old(self).configured(),
            final(self).nfs() == old(self).nfs(),
            final(self).room() == old(self).room(),
            final(self).delivered() == old(self).delivered(),
    {
        let popped = pop_frame(&mut self.tx_cons);
        proof {
            if popped is Some {
                assert(old(self).accepted().push(popped->0@).drop_last()
                    =~= old(self).accepted());
            }
        }
        popped.is_some()
    }

    /// Whether a frame can be received now. A captured frame is only fetched if it can.
    pub fn has_room(&mut self) -> (r: bool)
        ensures
            r == (final(self).room() > 0),
            final(self).room() >= old(self).room(),
            final(self).mac() == old(self).mac(),
            final(self).configured() == old(self).configured(),
            final(self).nfs() == old(self).nfs(),
            final(self).delivered() == old(self).delivered(),
            final(self).accepted() == old(self).accepted(),
            final(self).waiting() == old(self).waiting(),
    {
        free_slots(&mut self.rx_prod) > 0
    }

    /// Whether a captured frame goes to the guest.
    pub fn wants(&self, frame: &[u8]) -> (r: bool)
        ensures
            r == wanted(self.mac(), frame@),
            r <==> frame.len() >= 14 && match self.mac() {
                Some(m) => frame@[6] != m[0] || frame@[7] != m[1] || frame@[8] != m[2] || frame@[9]
                    != m[3] || frame@[10] != m[4] || frame@[11] != m[5],
                None => true,
            },
    {
        if frame.len() < 14 {
            return false;
        }
        match self.guest_mac {
            Some(m) => {
                let own = frame[6] == m[0] && frame[7] == m[1] && frame[8] == m[2] && frame[9]
                    == m[3] && frame[10] == m[4] && frame[11] == m[5];
                proof {
                    if own {
                        assert(source(frame@) =~= m@);
                    } else {
                        assert(source(frame@)[0] == frame@[6]);
                        assert(source(frame@)[1] == frame@[7]);
                        assert(source(frame@)[2] == frame@[8]);
                        assert(source(frame@)[3] == frame@[9]);
                        assert(source(frame@)[4] == frame@[10]);
                        assert(source(frame@)[5] == frame@[11]);
                        assert(frame@[6] != m@[0] || frame@[7] != m@[1] || frame@[8] != m@[2]
                            || frame@[9] != m@[3] || frame@[10] != m@[4] || frame@[11] != m@[5]);
                    }
                }
                !own
            },
            None => true,
        }
    }

    /// Puts a frame in the guest's ring. True if it is there, so that the guest has to
    /// be woken; with room it always is.
    pub fn deliver(&mut self, frame: Vec<u8>) -> (r: bool)
        ensures
            old(self).room() > 0 ==> r && final(self).room() == old(self).room() - 1,
            !r ==> final(self).room() == 0,
            final(self).delivered() == if r {
                old(self).delivered().push(frame@)
            } else {
                old(self).delivered()
            },
            final(self).delivered() == with_frame(old(self).delivered(), frame@, r),
            final(self).mac() == old(self).mac(),
            final(self).configured() == old(self).configured(),
            final(self).nfs() == old(self).nfs(),
            final(self).accepted() == old(self).accepted(),
            final(self).waiting() == old(self).waiting(),
    {
        match push_frame(&mut self.rx_prod, frame) {
            Ok(_) => true,
            Err(_) => false,
        }
    }

    /// Puts a reply of the file server in the guest's ring, or drops it if there is no
    /// room. True if the guest has to be woken.
    pub fn inject(&mut self, reply: Vec<u8>) -> (r: bool)
        ensures
            old(self).room() > 0 ==> r,
            r ==> final(self).room() >= old(self).room() - 1,
            !r ==> final(self).room() == 0,
            final(self).delivered() == if r {
                old(self).delivered().push(reply@)
            } else {
                old(self).delivered()
            },
            final(self).delivered() == with_frame(old(self).delivered(), reply@, r),
            final(self).mac() == old(self).mac(),
            final(self).configured() == old(self).configured(),
            final(self).nfs() == old(self).nfs(),
            final(self).accepted() == old(self).accepted(),
            final(self).waiting() == old(self).waiting(),
    {
        self.has_room() && self.deliver(reply)
    }

    /// Handles a captured frame: one that goes to the guest is put in its ring. True if
    /// the guest has to be woken; with room, exactly the frames that go to it wake it.
    pub fn on_rx(&mut self, frame: &[u8]) -> (r: bool)
        ensures
            r ==> wanted(old(self).mac(), frame@),
            old(self).room() > 0 ==> r == wanted(old(self).mac(), frame@),
            !wanted(old(self).mac(), frame@) ==> final(self).room() == old(self).room(),
            r && old(self).room() > 0 ==> final(self).room() == old(self).room() - 1,
            final(self).delivered() == if r {
                old(self).delivered().push(frame@)
            } else {
                old(self).delivered()
            },
            final(self).delivered() == with_frame(old(self).delivered(), frame@, r),
            final(self).mac() == old(self).mac(),
            final(self).configured() == old(self).configured(),
            final(self).nfs() == old(self).nfs(),
            final(self).accepted() == old(self).accepted(),
            final(self).waiting() == old(self).waiting(),
    {
        if !self.wants(frame) {
            return false;
        }
        self.deliver(copy_bytes(frame))
    }

    /// Decides on a frame of the guest once the file server has seen it: a frame that
    /// it answered stays here, and its replies go to the guest in their order, but for
    /// those that find no room: at least as many as there was room for, from the first on,
    /// arrive. Any other frame goes to the wire.
    pub fn on_nfs(&mut self, replies: Option<Vec<Vec<u8>>>) -> (r: TxRoute)
        ensures
            match replies {
                None => {
                    &&& r == TxRoute::Wire
                    &&& final(self).room() == old(self).room()
                    &&& final(self).delivered() == old(self).delivered()
                },
                Some(all) => {
                    &&& r matches TxRoute::Answered(woken) && woken
                        == final(self).delivered().len() - old(self).delivered().len()
                    &&& exists|kept: Seq<bool>|
                        {
                            &&& kept.len() == all@.len()
                            &&& final(self).delivered() == old(self).delivered()
                                + #[trigger] kept_of(all@, kept, kept.len() as int)
                            &&& forall|i: int|
                                0 <= i < kept.len() && i < old(self).room() ==> kept[i]
                        }
                    &&& ({
                        let k = at_most(old(self).room(), all@.len());
                        let had = old(self).delivered().len() as int;
                        &&& had + k <= final(self).delivered().len()
                        &&& final(self).delivered().subrange(had, had + k) == Seq::new(
                            k,
                            |i: int| all@[i]@,
                        )
                    })
                    &&& old(self).room() >= all@.len() ==> final(self).delivered()
                        == old(self).delivered() + Seq::new(all@.len(), |i: int| all@[i]@)
                },
            },
            final(self).mac() == old(self).mac(),
            final(self).configured() == old(self).configured(),
            final(self).nfs() == old(self).nfs(),
            final(self).accepted() == old(self).accepted(),
            final(self).waiting() == old(self).waiting(),
    {
        let mut all = match replies {
            None => {
                return TxRoute::Wire;
            },
            Some(all) => all,
        };
        let ghost whole = all@;
        let ghost mut kept: Seq<bool> = seq![];
        let mut woken: usize = 0;
        proof {
            assert(all.len() == whole.len());
            assert(self.delivered() =~= old(self).delivered() + kept_of(whole, kept, 0));
        }
        while all.len() > 0
            invariant
                kept.len() + all@.len() == whole.len(),
                whole.len() <= usize::MAX,
                all@ == whole.skip(kept.len() as int),
                woken <= kept.len(),
                woken == kept_of(whole, kept, kept.len() as int).len(),
                self.delivered() == old(self).delivered() + kept_of(
                    whole,
                    kept,
                    kept.len() as int,
                ),
                self.room() >= old(self).room() - kept.len(),
                forall|i: int| 0 <= i < kept.len() && i < old(self).room() ==> kept[i],
                self.mac() == old(self).mac(),
                self.configured() == old(self).configured(),
                self.nfs() == old(self).nfs(),
                self.accepted() == old(self).accepted(),
                self.waiting() == old(self).waiting(),
            decreases all@.len(),
        {
            let ghost before = kept;
            let ghost n = kept.len() as int;
            let reply = all.remove(0);
            let woke = self.inject(reply);
            if woke {
                woken = woken + 1;
            }
            proof {
                kept = before.push(woke);
                assert(reply == whole[n]);
                assert(all@ =~= whole.skip(n + 1));
                lemma_kept_prefix(whole, before, kept, n);
                assert(self.delivered() =~= old(self).delivered() + kept_of(whole, kept, n + 1));
            }
        }
        proof {
            if old(self).room() >= whole.len() {
                lemma_all_kept(whole, kept, kept.len() as int);
            }
            let k = at_most(old(self).room(), whole.len());
            let had = old(self).delivered().len() as int;
            lemma_all_kept(whole, kept, k as int);
            lemma_kept_grows(whole, kept, k as int, kept.len() as int);
            let got = kept_of(whole, kept, kept.len() as int);
            assert(self.delivered().subrange(had, had + k) =~= got.take(k as int));
        }
        TxRoute::Answered(woken)
    }
}

/// `a`, or `b` if that is less.
pub open spec fn at_most(a: nat, b: nat) -> nat {
    if a <= b {
        a
    } else {
        b
    }
}

/// The frames among the first `n` that are kept, in order.
pub open spec fn kept_of(all: Seq<Vec<u8>>, kept: Seq<bool>, n: int) -> Seq<Seq<u8>>
    decreases n,
{
    if n <= 0 || n > all.len() || n > kept.len() {
        seq![]
    } else if kept[n - 1] {
        kept_of(all, kept, n - 1).push(all[n - 1]@)
    } else {
        kept_of(all, kept, n - 1)
    }
}

proof fn lemma_kept_prefix(all: Seq<Vec<u8>>, a: Seq<bool>, b: Seq<bool>, n: int)
    requires
        0 <= n <= a.len(),
        n <= b.len(),
        n <= all.len(),
        forall|i: int| 0 <= i < n ==> a[i] == b[i],
    ensures
        kept_of(all, a, n) == kept_of(all, b, n),
    decreases n,
{
    if n > 0 {
        lemma_kept_prefix(all, a, b, n - 1);
    }
}

/// What is kept of the first few stands before what is kept of the rest.
proof fn lemma_kept_grows(all: Seq<Vec<u8>>, kept: Seq<bool>, k: int, n: int)
    requires
        0 <= k <= n <= all.len(),
        n <= kept.len(),
    ensures
        kept_of(all, kept, k).len() <= kept_of(all, kept, n).len(),
        kept_of(all, kept, n).take(kept_of(all, kept, k).len() as int) == kept_of(all, kept, k),
    decreases n,
{
    if k < n {
        lemma_kept_grows(all, kept, k, n - 1);
    }
    assert(kept_of(all, kept, n).take(kept_of(all, kept, k).len() as int) =~= kept_of(
        all,
        kept,
        k,
    ));
}

/// Where every one is kept, all are picked.
proof fn lemma_all_kept(all: Seq<Vec<u8>>, kept: Seq<bool>, n: int)
    requires
        0 <= n <= all.len(),
        n <= kept.len(),
        forall|i: int| 0 <= i < n ==> kept[i],
    ensures
        kept_of(all, kept, n) == Seq::new(n as nat, |i: int| all[i]@),
    decreases n,
{
    if n > 0 {
        lemma_all_kept(all, kept, n - 1);
        assert(kept_of(all, kept, n) =~= Seq::new(n as nat, |i: int| all[i]@));
    } else {
        assert(kept_of(all, kept, n) =~= Seq::new(n as nat, |i: int| all[i]@));
    }
}

/// The guest's address is learned once and never changes.
pub proof fn law_the_address_is_learned_once(mac: Option<Seq<u8>>, a: Seq<u8>, b: Seq<u8>)
    ensures
        learned(learned(mac, a), b) == if learned(mac, a) is Some {
            learned(mac, a)
        } else {
            learned(mac, b)
        },
{
}

/// Once a frame of the guest was seen, no frame from its address comes back to it.
pub proof fn law_own_frames_do_not_return(first: Seq<u8>, frame: Seq<u8>)
    requires
        first.len() >= 12,
        source(frame) == source(first),
    ensures
        !wanted(learned(None, first), frame),
{
}

/// Which captured frames go to the guest: a frame that is too short for a header never
/// does. Before the guest's address is known every other one does; after that, exactly those
/// whose octets 6 to 11, the sender, differ from it somewhere. Whom the frame is for and what
/// it holds do not matter.
pub proof fn law_which_frames_come_in(m: Seq<u8>, frame: Seq<u8>)
    requires
        m.len() == 6,
    ensures
        frame.len() < 14 ==> !wanted(None, frame) && !wanted(Some(m), frame),
        frame.len() >= 14 ==> wanted(None, frame),
        frame.len() >= 14 ==> (wanted(Some(m), frame) <==> frame[6] != m[0] || frame[7] != m[1]
            || frame[8] != m[2] || frame[9] != m[3] || frame[10] != m[4] || frame[11] != m[5]),
{
    if frame.len() >= 14 {
        let from = frame.subrange(6, 12);
        assert(from[0] == frame[6] && from[1] == frame[7] && from[2] == frame[8]);
        assert(from[3] == frame[9] && from[4] == frame[10] && from[5] == frame[11]);
        if frame[6] == m[0] && frame[7] == m[1] && frame[8] == m[2] && frame[9] == m[3]
            && frame[10] == m[4] && frame[11] == m[5] {
            assert(from =~= m);
        }
    }
}

/// Only the sender decides: two whole frames with the same octets 6 to 11 both go to the
/// guest or both do not, whoever they are for and whatever they carry.
pub proof fn law_only_the_sender_decides(mac: Option<Seq<u8>>, a: Seq<u8>, b: Seq<u8>)
    requires
        a.len() >= 14,
        b.len() >= 14,
        forall|i: int| 6 <= i < 12 ==> #[trigger] a[i] == b[i],
    ensures
        wanted(mac, a) == wanted(mac, b),
{
    assert(a.subrange(6, 12) =~= b.subrange(6, 12));
}

/// The guest's address is learned from octets 6 to 11 of its first frame that has them, and
/// from then on exactly the whole frames of other stations go to it.
pub proof fn law_the_sender_is_learned(first: Seq<u8>, frame: Seq<u8>)
    ensures
        first.len() < 12 ==> learned(None, first) is None,
        first.len() >= 12 ==> {
            &&& learned(None, first) matches Some(m) && m.len() == 6 && m[0] == first[6] && m[1]
                == first[7] && m[2] == first[8] && m[3] == first[9] && m[4] == first[10] && m[5]
                == first[11]
            &&& frame.len() >= 14 ==> (wanted(learned(None, first), frame) <==> exists|i: int|
                6 <= i < 12 && #[trigger] frame[i] != first[i])
        },
{
    if first.len() >= 12 {
        let m = first.subrange(6, 12);
        assert(m[0] == first[6] && m[1] == first[7] && m[2] == first[8]);
        assert(m[3] == first[9] && m[4] == first[10] && m[5] == first[11]);
        law_which_frames_come_in(m, frame);
        if frame.len() >= 14 && (exists|i: int| 6 <= i < 12 && #[trigger] frame[i] != first[i]) {
            let i = choose|i: int| 6 <= i < 12 && #[trigger] frame[i] != first[i];
            assert(m[i - 6] == first[i]);
            assert(frame.subrange(6, 12)[i - 6] == frame[i]);
        }
    }
}

/// A frame carries IPv4 exactly if it is whole and its type, octets 12 and 13, is 0x0800;
/// nothing else in it matters.
pub proof fn law_what_carries_ip(frame: Seq<u8>)
    ensures
        carries_ip(frame) <==> frame.len() >= 14 && 256 * frame[12] + frame[13] == 0x0800,
{
}

/// The capture filter names the guest's address between two fixed texts, octet by octet in
/// two hexadecimal digits with colons.
pub proof fn law_the_filter_names_the_guest(mac: Seq<u8>)
    requires
        mac.len() == 6,
    ensures
        filter_text(mac).len() == 27 + " or ether broadcast or ether multicast"@.len(),
        filter_text(mac).take(10) == "ether dst "@,
        filter_text(mac).skip(27) == " or ether broadcast or ether multicast"@,
        forall|i: int|
            0 <= i < 6 ==> crate::text::parsed(
                #[trigger] filter_text(mac).subrange(10 + 3 * i, 12 + 3 * i),
                16,
                255,
            ) == Some(mac[i] as nat),
        forall|i: int| 0 <= i < 5 ==> #[trigger] filter_text(mac)[12 + 3 * i] == ':',
{
    reveal_strlit("ether dst ");
    reveal_strlit(":");
    let t = filter_text(mac);
    let m = mac_text(mac, 6);
    lemma_mac_text(mac, 6);
    assert(t.take(10) =~= "ether dst "@);
    assert(t.skip(27) =~= " or ether broadcast or ether multicast"@);
    assert forall|i: int| 0 <= i < 6 implies crate::text::parsed(
        #[trigger] t.subrange(10 + 3 * i, 12 + 3 * i),
        16,
        255,
    ) == Some(mac[i] as nat) by {
        assert(t.subrange(10 + 3 * i, 12 + 3 * i) =~= m.subrange(3 * i, 3 * i + 2));
        crate::text::law_hex_octets(mac[i] as nat);
    }
    assert forall|i: int| 0 <= i < 5 implies #[trigger] t[12 + 3 * i] == ':' by {
        assert(t[12 + 3 * i] == m[3 * i + 2]);
    }
}

// ---------------------------------------------------------------------------
// An address for the file server
// ---------------------------------------------------------------------------

/// The most candidates that are offered.
pub const MAX_CANDIDATES: usize = 16;

/// Where the search starts among `usable` addresses: 213 of a /24, which is offset 212
/// of 254, and in proportion elsewhere.
pub open spec fn start_offset(usable: int) -> int {
    usable * 212 / 254
}

/// The last offset that is offered: 95 in a hundred of the usable range.
pub open spec fn cap_offset(usable: int) -> int {
    usable * 95 / 100
}

/// The addresses of the subnet at `net`, from `off` to `cap` above its first, that are
/// below the broadcast address and not reserved; at most `room` of them, in order.
pub open spec fn free_hosts(
    net: int,
    size: int,
    off: int,
    cap: int,
    room: int,
    reserved: Seq<Ipv4Addr>,
) -> Seq<Ipv4Addr>
    decreases cap + 1 - off,
{
    if off > cap || room <= 0 {
        seq![]
    } else {
        let addr = Ipv4Addr((net + 1 + off) as u32);
        if net + 1 + off < net + size - 1 && !reserved.contains(addr) {
            seq![addr] + free_hosts(net, size, off + 1, cap, room - 1, reserved)
        } else {
            free_hosts(net, size, off + 1, cap, room, reserved)
        }
    }
}

/// The candidates in the subnet of `network`.
pub open spec fn candidates(network: int, prefix: int, reserved: Seq<Ipv4Addr>) -> Seq<Ipv4Addr> {
    if prefix == 0 || prefix >= 31 {
        seq![]
    } else {
        let size = crate::net_addr::span(prefix);
        let net = network - network % size;
        free_hosts(
            net,
            size,
            start_offset(size - 2),
            cap_offset(size - 2),
            MAX_CANDIDATES as int,
            reserved,
        )
    }
}

fn is_reserved(addr: Ipv4Addr, reserved: &[Ipv4Addr]) -> (r: bool)
    ensures
        r == reserved@.contains(addr),
{
    let mut i: usize = 0;
    while i < reserved.len()
        invariant
            i <= reserved.len(),
            forall|k: int| 0 <= k < i ==> reserved@[k] != addr,
        decreases reserved.len() - i,
    {
        if reserved[i].0 == addr.0 {
            assert(reserved@[i as int] == addr);
            return true;
        }
        i = i + 1;
    }
    false
}

/// Addresses for the file server of the bridge, in the order in which they are tried.
/// The search runs upwards from where 213 lies in a /24, never above 95 in a hundred
/// of the usable range, and leaves out what is reserved. A prefix without a range of
/// hosts has none.
pub fn nfs_ip_candidates(network: Ipv4Addr, prefix: u8, reserved: &[Ipv4Addr]) -> (r: Vec<
    Ipv4Addr,
>)
    ensures
        r@ == candidates(network.0 as int, prefix as int, reserved@),
{
    let mut out: Vec<Ipv4Addr> = Vec::new();
    if prefix == 0 || prefix >= 31 {
        return out;
    }
    let size: u64 = span_of(prefix as u32);
    proof {
        crate::net_addr::lemma_span(prefix as int);
        lemma_whole_subnet(network.0 as int, prefix as int);
    }
    let net: u64 = network.0 as u64 - network.0 as u64 % size;
    let usable: u64 = size - 2;
    let cap: u64 = usable * 95 / 100;
    let mut off: u64 = usable * 212 / 254;
    let ghost all = candidates(network.0 as int, prefix as int, reserved@);
    proof {
        assert(out@ + all =~= all);
    }
    while off <= cap && out.len() < MAX_CANDIDATES
        invariant
            out.len() <= MAX_CANDIDATES,
            4 <= size <= 0x8000_0000,
            net + size <= 0x1_0000_0000,
            cap <= size - 2,
            off <= size,
            all == out@ + free_hosts(
                net as int,
                size as int,
                off as int,
                cap as int,
                MAX_CANDIDATES - out.len(),
                reserved@,
            ),
        decreases cap + 1 - off,
    {
        let addr = Ipv4Addr((net + 1 + off) as u32);
        let ghost before = out@;
        if net + 1 + off < net + size - 1 && !is_reserved(addr, reserved) {
            out.push(addr);
            proof {
                let rest = free_hosts(
                    net as int,
                    size as int,
                    off + 1,
                    cap as int,
                    MAX_CANDIDATES - out.len(),
                    reserved@,
                );
                assert(before + (seq![addr] + rest) =~= out@ + rest);
            }
        }
        off = off + 1;
    }
    proof {
        assert(out@ + Seq::<Ipv4Addr>::empty() =~= out@);
    }
    out
}

/// A subnet lies whole inside the address space.
proof fn lemma_whole_subnet(network: int, prefix: int)
    requires
        0 <= network < 0x1_0000_0000,
        1 <= prefix <= 30,
    ensures
        ({
            let size = crate::net_addr::span(prefix);
            0 <= network - network % size && network - network % size + size <= 0x1_0000_0000
        }),
{
    crate::net_addr::lemma_span(prefix);
    let size = crate::net_addr::span(prefix);
    let whole = vstd::arithmetic::power2::pow2(prefix as nat) as int;
    vstd::arithmetic::power2::lemma_pow2_adds(prefix as nat, (32 - prefix) as nat);
    vstd::arithmetic::power2::lemma2_to64();
    assert(whole * size == 0x1_0000_0000);
    vstd::arithmetic::div_mod::lemma_fundamental_div_mod(network, size);
    let q = network / size;
    assert(q < whole) by (nonlinear_arith)
        requires
            size * q <= network,
            network < 0x1_0000_0000,
            whole * size == 0x1_0000_0000,
            size > 0,
    ;
    assert(size * q + size <= whole * size) by (nonlinear_arith)
        requires
            q + 1 <= whole,
            size > 0,
    ;
    assert(network % size >= 0 && network % size < size) by (nonlinear_arith)
        requires
            size > 0,
    ;
    assert(size * q >= 0) by (nonlinear_arith)
        requires
            network == size * q + network % size,
            network >= 0,
            0 <= network % size < size,
            size > 0,
    ;
}

/// What is offered lies in the subnet, between where the search starts and its cap, is
/// not reserved, and ascends.
pub open spec fn fit_for_use(
    found: Seq<Ipv4Addr>,
    net: int,
    size: int,
    from: int,
    cap: int,
    reserved: Seq<Ipv4Addr>,
) -> bool {
    &&& forall|i: int|
        0 <= i < found.len() ==> net + 1 + from <= (#[trigger] found[i]).0 <= net + 1 + cap
            && found[i].0 < net + size - 1 && !reserved.contains(found[i])
    &&& forall|i: int, j: int| 0 <= i < j < found.len() ==> found[i].0 < found[j].0
}

proof fn lemma_free_hosts(
    net: int,
    size: int,
    off: int,
    cap: int,
    room: int,
    reserved: Seq<Ipv4Addr>,
)
    requires
        0 <= net,
        0 <= off,
        0 <= room,
        net + size <= 0x1_0000_0000,
    ensures
        fit_for_use(free_hosts(net, size, off, cap, room, reserved), net, size, off, cap, reserved),
        free_hosts(net, size, off, cap, room, reserved).len() <= room,
        free_hosts(net, size, off, cap, room, reserved).len() < room ==> forall|a: int|
            net + 1 + off <= a <= net + 1 + cap && a < net + size - 1 ==> reserved.contains(
                Ipv4Addr(a as u32),
            ) || #[trigger] free_hosts(net, size, off, cap, room, reserved).contains(
                Ipv4Addr(a as u32),
            ),
        forall|i: int, a: int|
            0 <= i < free_hosts(net, size, off, cap, room, reserved).len() && net + 1 + off <= a
                < free_hosts(net, size, off, cap, room, reserved)[i].0 ==> reserved.contains(
                Ipv4Addr(a as u32),
            ) || #[trigger] free_hosts(net, size, off, cap, room, reserved).take(i).contains(
                Ipv4Addr(a as u32),
            ),
    decreases cap + 1 - off,
{
    let all = free_hosts(net, size, off, cap, room, reserved);
    if off > cap || room <= 0 {
    } else {
        let addr = Ipv4Addr((net + 1 + off) as u32);
        if net + 1 + off < net + size - 1 && !reserved.contains(addr) {
            lemma_free_hosts(net, size, off + 1, cap, room - 1, reserved);
            let rest = free_hosts(net, size, off + 1, cap, room - 1, reserved);
            assert(all[0] == addr);
            assert forall|i: int| 1 <= i < all.len() implies #[trigger] all[i] == rest[i - 1] by {}
            assert forall|a: int|
                all.len() < room && net + 1 + off <= a <= net + 1 + cap && a < net + size
                    - 1 implies reserved.contains(Ipv4Addr(a as u32)) || #[trigger] all.contains(
                Ipv4Addr(a as u32),
            ) by {
                if a != net + 1 + off && !reserved.contains(Ipv4Addr(a as u32)) {
                    assert(rest.contains(Ipv4Addr(a as u32)));
                    let k = choose|k: int| 0 <= k < rest.len() && rest[k] == Ipv4Addr(a as u32);
                    assert(all[k + 1] == Ipv4Addr(a as u32));
                } else if a == net + 1 + off {
                    assert(all[0] == Ipv4Addr(a as u32));
                }
            }
            assert forall|i: int, a: int|
                0 <= i < all.len() && net + 1 + off <= a < all[i].0 implies reserved.contains(
                Ipv4Addr(a as u32),
            ) || #[trigger] all.take(i).contains(Ipv4Addr(a as u32)) by {
                assert(i > 0);
                if a == net + 1 + off {
                    assert(all.take(i)[0] == addr);
                } else if !reserved.contains(Ipv4Addr(a as u32)) {
                    assert(all[i] == rest[i - 1]);
                    assert(rest.take(i - 1).contains(Ipv4Addr(a as u32)));
                    let front = rest.take(i - 1);
                    let k = choose|k: int|
                        0 <= k < front.len() && #[trigger] front[k] == Ipv4Addr(a as u32);
                    assert(all.take(i)[k + 1] == Ipv4Addr(a as u32));
                }
            }
        } else {
            lemma_free_hosts(net, size, off + 1, cap, room, reserved);
            assert forall|i: int, a: int|
                0 <= i < all.len() && net + 1 + off <= a < all[i].0 implies reserved.contains(
                Ipv4Addr(a as u32),
            ) || #[trigger] all.take(i).contains(Ipv4Addr(a as u32)) by {
                if a == net + 1 + off {
                    assert(all[i].0 < net + size - 1);
                }
            }
        }
    }
}

/// The candidates are hosts of the subnet, none reserved, from the start of the search
/// up to its cap, in ascending order and at most as many as are offered; where there
/// are fewer, every address in that range that is not reserved is among them.
pub proof fn law_candidates_are_free_hosts(network: int, prefix: int, reserved: Seq<Ipv4Addr>)
    requires
        0 <= network < 0x1_0000_0000,
        1 <= prefix <= 30,
    ensures
        ({
            let size = crate::net_addr::span(prefix);
            let net = network - network % size;
            let from = start_offset(size - 2);
            let cap = cap_offset(size - 2);
            let found = candidates(network, prefix, reserved);
            &&& fit_for_use(found, net, size, from, cap, reserved)
            &&& found.len() <= MAX_CANDIDATES
            &&& found.len() < MAX_CANDIDATES ==> forall|a: int|
                net + 1 + from <= a <= net + 1 + cap && a < net + size - 1 ==> reserved.contains(
                    Ipv4Addr(a as u32),
                ) || #[trigger] found.contains(Ipv4Addr(a as u32))
        }),
{
    let size = crate::net_addr::span(prefix);
    crate::net_addr::lemma_span(prefix);
    lemma_whole_subnet(network, prefix);
    lemma_free_hosts(
        network - network % size,
        size,
        start_offset(size - 2),
        cap_offset(size - 2),
        MAX_CANDIDATES as int,
        reserved,
    );
}

/// Where the candidates lie, in numbers: in a subnet of `size` addresses with `size - 2`
/// usable ones, the search starts at 212 of every 254 usable addresses and ends at 95 of every
/// 100. It offers at most sixteen, leaves out only what is reserved, and goes upwards without a
/// gap; a prefix of 0, 31 or more has none.
pub proof fn law_where_the_candidates_lie(
    network: int,
    prefix: int,
    size: int,
    net: int,
    reserved: Seq<Ipv4Addr>,
)
    requires
        0 <= network < 0x1_0000_0000,
        0 <= prefix,
        prefix <= 30 ==> size == vstd::arithmetic::power2::pow2((32 - prefix) as nat),
        prefix <= 30 ==> net % size == 0 && net <= network < net + size,
    ensures
        ({
            let found = candidates(network, prefix, reserved);
            &&& found.len() <= 16
            &&& prefix == 0 || prefix >= 31 ==> found.len() == 0
            &&& forall|i: int|
                0 <= i < found.len() ==> {
                    let off = (#[trigger] found[i]).0 - net - 1;
                    &&& 254 * (off + 1) > 212 * (size - 2)
                    &&& 100 * off <= 95 * (size - 2)
                    &&& off < size - 2
                    &&& !reserved.contains(found[i])
                }
            &&& forall|i: int, j: int| 0 <= i < j < found.len() ==> found[i].0 < found[j].0
            &&& forall|i: int, a: int|
                0 <= i < found.len() && 254 * (a - net) > 212 * (size - 2) && a < found[i].0
                    ==> reserved.contains(Ipv4Addr(a as u32)) || #[trigger] found.take(i).contains(
                    Ipv4Addr(a as u32),
                )
            &&& 1 <= prefix <= 30 && found.len() < 16 ==> forall|a: int|
                254 * (a - net) > 212 * (size - 2) && 100 * (a - net - 1) <= 95 * (size - 2) && a
                    - net - 1 < size - 2 ==> reserved.contains(Ipv4Addr(a as u32))
                    || #[trigger] found.contains(Ipv4Addr(a as u32))
        }),
{
    if 1 <= prefix <= 30 {
        crate::net_addr::lemma_span(prefix);
        assert(size == crate::net_addr::span(prefix));
        vstd::arithmetic::div_mod::lemma_fundamental_div_mod(net, size);
        vstd::arithmetic::div_mod::lemma_fundamental_div_mod(network, size);
        let q = net / size;
        let p = network / size;
        assert(p == q) by (nonlinear_arith)
            requires
                net == size * q,
                network == size * p + network % size,
                0 <= network % size < size,
                net <= network < net + size,
                size > 0,
        ;
        assert(network - network % size == net);
        lemma_whole_subnet(network, prefix);
        let usable = size - 2;
        let from = start_offset(usable);
        let cap = cap_offset(usable);
        lemma_free_hosts(net, size, from, cap, 16, reserved);
        let found = candidates(network, prefix, reserved);
        assert(254 * from <= 212 * usable < 254 * (from + 1));
        assert(100 * cap <= 95 * usable < 100 * (cap + 1));
        assert forall|i: int, a: int|
            0 <= i < found.len() && 254 * (a - net) > 212 * (size - 2) && a
                < found[i].0 implies reserved.contains(Ipv4Addr(a as u32))
            || #[trigger] found.take(i).contains(Ipv4Addr(a as u32)) by {
            assert(net + 1 + from <= a);
        }
        if found.len() < 16 {
            assert forall|a: int|
                254 * (a - net) > 212 * (size - 2) && 100 * (a - net - 1) <= 95 * (size - 2) && a
                    - net - 1 < size - 2 implies reserved.contains(Ipv4Addr(a as u32))
                || #[trigger] found.contains(Ipv4Addr(a as u32)) by {
                assert(net + 1 + from <= a <= net + 1 + cap);
            }
        }
    }
}

/// The search does not depend on the host bits of the network that it is given.
pub proof fn law_host_bits_do_not_matter(a: int, b: int, prefix: int, reserved: Seq<Ipv4Addr>)
    requires
        1 <= prefix <= 30,
        a - a % crate::net_addr::span(prefix) == b - b % crate::net_addr::span(prefix),
    ensures
        candidates(a, prefix, reserved) == candidates(b, prefix, reserved),
{
}

} // verus!
