//! The endpoints: how the parameters of a request are read and checked, and what is asked
//! of the database in answer to it.
//!
//! Each endpoint takes the key that the request was authenticated with, its parameters and
//! today's date, and gives the query to run or the error to answer with. Nothing reaches
//! the database that did not pass here.

use vstd::arithmetic::power2::pow2;
use vstd::prelude::*;
use vstd::string::*;

use crate::address::{
    address_text, any_covers, ip_of_text, is_address_char, spells_address, IpAddr, IpNetwork,
};
use crate::auth::{opt_view, AuthenticatedKey, ClientIp};
use crate::config::{LimitsConfig, LoadedConfig};
use crate::error::{ApiError, ApiErrorView, ApiResult};
use crate::query::{daily_window, no_such_day, week_first_day};
use crate::text::{
    decimal, decimal_text, is_white_space, law_split_concat, lemma_split_single, lemma_trimmed_id,
    split, split_on, trim, trimmed, views,
};
use crate::threshold::{
    denotes, exponent, has_sign, is_finite, law_bytes_are_those_of_the_mib, law_whole_mib_is_exact,
    mantissa, threshold_bytes, threshold_bytes_of, threshold_error,
};
use crate::timeutil::{
    civil_text, date_of_text, date_text, day_bounds, day_number, is_civil, settled_midnight,
    taipei_midnight, Date, UtcTime, DATE_FORMAT, DAY_MAX, DAY_MIN, TAIPEI_SETTLED_DAY,
};

verus! {

/// The answer to a probe whether the process is alive. It asks for no key and does not
/// touch the database.
pub fn healthz() -> (answer: &'static str)
    ensures
        answer@ == "ok"@,
{
    "ok"
}

/// A refusal of a parameter.
pub open spec fn invalid(message: Seq<char>) -> ApiErrorView {
    ApiErrorView::Validation(message)
}

// ---- addresses -----------------------------------------------------------------------

/// The pieces between the commas of some parameters, in order.
pub open spec fn all_pieces(raw: Seq<Seq<char>>) -> Seq<Seq<char>>
    decreases raw.len(),
{
    if raw.len() == 0 {
        Seq::<Seq<char>>::empty()
    } else {
        all_pieces(raw.drop_last()) + split_on(raw.last(), ',')
    }
}

/// The pieces without the white space around them; those that have nothing else are left out.
pub open spec fn without_blanks(pieces: Seq<Seq<char>>) -> Seq<Seq<char>>
    decreases pieces.len(),
{
    if pieces.len() == 0 {
        Seq::<Seq<char>>::empty()
    } else {
        let before = without_blanks(pieces.drop_last());
        let entry = trimmed(pieces.last());
        if entry.len() == 0 {
            before
        } else {
            before.push(entry)
        }
    }
}

/// The entries of some parameters: `?ip=a&ip=b` and `?ip=a,b` give the same.
pub open spec fn ip_entries(raw: Seq<Seq<char>>) -> Seq<Seq<char>> {
    without_blanks(all_pieces(raw))
}

/// The first entry that is no address.
pub open spec fn first_non_address(entries: Seq<Seq<char>>) -> Option<Seq<char>>
    decreases entries.len(),
{
    if entries.len() == 0 {
        None
    } else if first_non_address(entries.drop_last()) is Some {
        first_non_address(entries.drop_last())
    } else if ip_of_text(entries.last()) is None {
        Some(entries.last())
    } else {
        None
    }
}

/// The addresses of the entries, each where it occurs first and not again.
pub open spec fn distinct_addresses(entries: Seq<Seq<char>>) -> Seq<IpAddr>
    decreases entries.len(),
{
    if entries.len() == 0 {
        Seq::<IpAddr>::empty()
    } else {
        let before = distinct_addresses(entries.drop_last());
        let ip = ip_of_text(entries.last())->0;
        if before.contains(ip) {
            before
        } else {
            before.push(ip)
        }
    }
}

/// The answer to a text that is no address.
pub open spec fn not_an_address(text: Seq<char>) -> ApiErrorView {
    invalid("\""@ + text + "\" is not a valid IP address"@)
}

/// What a list of addresses comes to: the distinct addresses, at least one and at most
/// `max`, or the answer to what is wrong with it.
pub open spec fn ips_outcome(raw: Seq<Seq<char>>, max: nat) -> Result<Seq<IpAddr>, ApiErrorView> {
    let entries = ip_entries(raw);
    let ips = distinct_addresses(entries);
    match first_non_address(entries) {
        Some(entry) => Err(not_an_address(entry)),
        None => if ips.len() == 0 {
            Err(invalid("at least one ip parameter is required"@))
        } else if ips.len() > max {
            Err(
                invalid(
                    "at most "@ + decimal(max) + " IP addresses per request, received "@ + decimal(
                        ips.len(),
                    ),
                ),
            )
        } else {
            Ok(ips)
        },
    }
}

/// What a single address comes to.
pub open spec fn ip_outcome(raw: Seq<char>) -> Result<IpAddr, ApiErrorView> {
    match ip_of_text(trimmed(raw)) {
        Some(ip) => Ok(ip),
        None => Err(not_an_address(raw)),
    }
}

/// The pieces between the commas of some parameters.
fn collect_pieces(raw: &Vec<String>) -> (pieces: Vec<String>)
    ensures
        views(pieces@) == all_pieces(views(raw@)),
{
    let mut pieces: Vec<String> = Vec::new();
    let mut i: usize = 0;
    assert(views(pieces@) =~= Seq::<Seq<char>>::empty());
    while i < raw.len()
        invariant
            i <= raw.len(),
            views(pieces@) == all_pieces(views(raw@).take(i as int)),
        decreases raw.len() - i,
    {
        let ghost before = pieces@;
        let mut some = split(raw[i].as_str(), ',');
        let ghost added = some@;
        pieces.append(&mut some);
        proof {
            let next = views(raw@).take(i + 1);
            assert(next.drop_last() =~= views(raw@).take(i as int));
            assert(next.last() == raw@[i as int]@);
            assert(views(pieces@) =~= views(before) + views(added));
        }
        i = i + 1;
    }
    assert(views(raw@).take(i as int) =~= views(raw@));
    pieces
}

/// Whether `ip` is one of `ips`.
fn contains_address(ips: &Vec<IpAddr>, ip: IpAddr) -> (found: bool)
    ensures
        found == ips@.contains(ip),
{
    let mut i: usize = 0;
    while i < ips.len()
        invariant
            i <= ips.len(),
            forall|j: int| 0 <= j < i ==> ips@[j] != ip,
        decreases ips.len() - i,
    {
        if ips[i] == ip {
            assert(ips@[i as int] == ip);
            return true;
        }
        i = i + 1;
    }
    false
}

/// The answer to a text that is no address.
fn refuse_address(text: &str) -> (err: ApiError)
    ensures
        err@ == not_an_address(text@),
{
    let mut message = "\"".to_owned();
    message.append(text);
    message.append("\" is not a valid IP address");
    ApiError::validation(message)
}

/// The addresses of a request, given by repeated parameters or with commas between them.
/// Blank entries are skipped and an address that comes again is asked for once.
pub fn parse_ips(raw: &Vec<String>, max: usize) -> (res: ApiResult<Vec<IpAddr>>)
    ensures
        match res {
            Ok(ips) => ips_outcome(views(raw@), max as nat) == Ok::<Seq<IpAddr>, ApiErrorView>(
                ips@,
            ),
            Err(err) => ips_outcome(views(raw@), max as nat) == Err::<Seq<IpAddr>, ApiErrorView>(
                err@,
            ),
        },
        res matches Ok(ips) ==> 1 <= ips@.len() <= max && ips@.no_duplicates(),
        res matches Err(err) ==> err is Validation,
{
    proof {
        law_accepted_list_is_within_limits(views(raw@), max as nat);
    }
    let pieces = collect_pieces(raw);
    let mut ips: Vec<IpAddr> = Vec::new();
    let mut i: usize = 0;
    let ghost all = views(pieces@);
    while i < pieces.len()
        invariant
            i <= pieces.len(),
            all == views(pieces@),
            all == all_pieces(views(raw@)),
            first_non_address(without_blanks(all.take(i as int))) is None,
            ips@ == distinct_addresses(without_blanks(all.take(i as int))),
        decreases pieces.len() - i,
    {
        let entry = trim(pieces[i].as_str());
        let ghost before = without_blanks(all.take(i as int));
        let ghost after = without_blanks(all.take(i + 1));
        proof {
            assert(all.take(i + 1).drop_last() =~= all.take(i as int));
            assert(all.take(i + 1).last() == pieces@[i as int]@);
            if entry@.len() > 0 {
                assert(after == before.push(entry@));
                assert(after.drop_last() =~= before);
            }
        }
        if !entry.is_empty() {
            match IpAddr::parse(entry) {
                Some(ip) => {
                    if !contains_address(&ips, ip) {
                        ips.push(ip);
                    }
                },
                None => {
                    proof {
                        assert(first_non_address(after) == Some(entry@));
                        lemma_first_non_address_stays(all, i + 1);
                        assert(all.take(all.len() as int) =~= all);
                    }
                    return Err(refuse_address(entry));
                },
            }
        }
        i = i + 1;
    }
    assert(all.take(i as int) =~= all);
    if ips.len() == 0 {
        return Err(ApiError::validation("at least one ip parameter is required".to_owned()));
    }
    if ips.len() > max {
        let mut message = "at most ".to_owned();
        let max_text = decimal_text(max as u64);
        message.append(max_text.as_str());
        message.append(" IP addresses per request, received ");
        let received = decimal_text(ips.len() as u64);
        message.append(received.as_str());
        return Err(ApiError::validation(message));
    }
    Ok(ips)
}

/// The first entry that is no address stays the first, whatever follows.
proof fn lemma_first_non_address_stays(pieces: Seq<Seq<char>>, n: int)
    requires
        0 <= n <= pieces.len(),
        first_non_address(without_blanks(pieces.take(n))) is Some,
    ensures
        first_non_address(without_blanks(pieces)) == first_non_address(
            without_blanks(pieces.take(n)),
        ),
    decreases pieces.len() - n,
{
    if n == pieces.len() {
        assert(pieces.take(n) =~= pieces);
    } else {
        let next = pieces.take(n + 1);
        assert(next.drop_last() =~= pieces.take(n));
        let before = without_blanks(pieces.take(n));
        let after = without_blanks(next);
        if after != before {
            assert(after.drop_last() =~= before);
        }
        lemma_first_non_address_stays(pieces, n + 1);
    }
}

/// The address of a request for a single one.
pub fn parse_single_ip(raw: &str) -> (res: ApiResult<IpAddr>)
    ensures
        match res {
            Ok(ip) => ip_outcome(raw@) == Ok::<IpAddr, ApiErrorView>(ip),
            Err(err) => ip_outcome(raw@) == Err::<IpAddr, ApiErrorView>(err@),
        },
        match ip_of_text(trimmed(raw@)) {
            Some(ip) => res == Ok::<IpAddr, ApiError>(ip),
            None => res matches Err(err) && err@ == ApiErrorView::Validation(
                "\""@ + raw@ + "\" is not a valid IP address"@,
            ),
        },
{
    match IpAddr::parse(trim(raw)) {
        Some(ip) => Ok(ip),
        None => Err(refuse_address(raw)),
    }
}

/// An address comes at most once, and exactly the addresses of the entries come.
pub proof fn law_addresses_are_distinct_and_complete(entries: Seq<Seq<char>>)
    requires
        first_non_address(entries) is None,
    ensures
        distinct_addresses(entries).no_duplicates(),
        forall|i: int|
            0 <= i < entries.len() ==> ip_of_text(#[trigger] entries[i]) is Some
                && distinct_addresses(entries).contains(ip_of_text(entries[i])->0),
        forall|k: int|
            0 <= k < distinct_addresses(entries).len() ==> exists|i: int|
                0 <= i < entries.len() && ip_of_text(#[trigger] entries[i]) == Some(
                    #[trigger] distinct_addresses(entries)[k],
                ),
        distinct_addresses(entries).len() <= entries.len(),
    decreases entries.len(),
{
    if entries.len() > 0 {
        let rest = entries.drop_last();
        law_addresses_are_distinct_and_complete(rest);
        let before = distinct_addresses(rest);
        let after = distinct_addresses(entries);
        let ip = ip_of_text(entries.last())->0;
        assert forall|i: int| 0 <= i < entries.len() implies ip_of_text(
            #[trigger] entries[i],
        ) is Some && after.contains(ip_of_text(entries[i])->0) by {
            if i < rest.len() {
                assert(entries[i] == rest[i]);
                let k = choose|k: int|
                    0 <= k < before.len() && before[k] == ip_of_text(rest[i])->0;
                assert(after[k] == before[k]);
            } else if before.contains(ip) {
                assert(after == before);
            } else {
                assert(after[after.len() - 1] == ip);
            }
        }
        assert forall|k: int| 0 <= k < after.len() implies exists|i: int|
            0 <= i < entries.len() && ip_of_text(#[trigger] entries[i]) == Some(
                #[trigger] after[k],
            ) by {
            if k < before.len() {
                assert(after[k] == before[k]);
                let i = choose|i: int|
                    0 <= i < rest.len() && ip_of_text(#[trigger] rest[i]) == Some(before[k]);
                assert(entries[i] == rest[i]);
            } else {
                assert(entries[entries.len() - 1] == entries.last());
            }
        }
    }
}

/// The addresses come in the order of their first entries: those of the first entries come
/// first, whatever follows.
pub proof fn law_addresses_keep_their_order(entries: Seq<Seq<char>>, n: int)
    requires
        0 <= n <= entries.len(),
    ensures
        distinct_addresses(entries.take(n)).is_prefix_of(distinct_addresses(entries)),
    decreases entries.len() - n,
{
    if n == entries.len() {
        assert(entries.take(n) =~= entries);
    } else {
        law_addresses_keep_their_order(entries, n + 1);
        assert(entries.take(n + 1).drop_last() =~= entries.take(n));
        let short = distinct_addresses(entries.take(n));
        let long = distinct_addresses(entries.take(n + 1));
        assert(short =~= long.take(short.len() as int));
        assert(short =~= distinct_addresses(entries).take(short.len() as int));
    }
}

/// A list of addresses that is accepted is not empty, holds no address twice and no more than
/// the limit.
pub proof fn law_accepted_list_is_within_limits(raw: Seq<Seq<char>>, max: nat)
    ensures
        ips_outcome(raw, max) matches Ok(ips) ==> 1 <= ips.len() <= max && ips.no_duplicates(),
{
    if first_non_address(ip_entries(raw)) is None {
        law_addresses_are_distinct_and_complete(ip_entries(raw));
    }
}

/// Repeated parameters and commas mean the same: two parameters come to what they come to
/// as one, with a comma between them.
pub proof fn law_comma_equals_repetition(
    before: Seq<Seq<char>>,
    a: Seq<char>,
    b: Seq<char>,
    max: nat,
)
    ensures
        ips_outcome(before.push(a).push(b), max) == ips_outcome(
            before.push(a.push(',') + b),
            max,
        ),
{
    let two = before.push(a).push(b);
    let one = before.push(a.push(',') + b);
    law_split_concat(a, b, ',');
    assert(two.drop_last() =~= before.push(a));
    assert(before.push(a).drop_last() =~= before);
    assert(one.drop_last() =~= before);
    assert(all_pieces(before.push(a)) == all_pieces(before) + split_on(a, ','));
    assert(all_pieces(two) =~= all_pieces(one));
}

/// The pieces of two lists of parameters are those of the one followed by those of the other.
proof fn lemma_all_pieces_concat(a: Seq<Seq<char>>, b: Seq<Seq<char>>)
    ensures
        all_pieces(a + b) == all_pieces(a) + all_pieces(b),
    decreases b.len(),
{
    if b.len() == 0 {
        assert(a + b =~= a);
        assert(all_pieces(a) + all_pieces(b) =~= all_pieces(a));
    } else {
        lemma_all_pieces_concat(a, b.drop_last());
        assert((a + b).drop_last() =~= a + b.drop_last());
        assert(all_pieces(a + b) =~= all_pieces(a) + all_pieces(b));
    }
}

/// Leaving out the blank pieces of two lists is leaving them out of each.
proof fn lemma_without_blanks_concat(a: Seq<Seq<char>>, b: Seq<Seq<char>>)
    ensures
        without_blanks(a + b) == without_blanks(a) + without_blanks(b),
    decreases b.len(),
{
    if b.len() == 0 {
        assert(a + b =~= a);
        assert(without_blanks(a) + without_blanks(b) =~= without_blanks(a));
    } else {
        lemma_without_blanks_concat(a, b.drop_last());
        assert((a + b).drop_last() =~= a + b.drop_last());
        assert(without_blanks(a + b) =~= without_blanks(a) + without_blanks(b));
    }
}

/// The entries of a request are those of its parameters, in their order. A parameter without a
/// comma is one entry, without the white space around it, or none where it has nothing else.
pub proof fn law_entries_are_those_of_the_parameters(
    a: Seq<Seq<char>>,
    b: Seq<Seq<char>>,
    single: Seq<char>,
)
    ensures
        ip_entries(a + b) == ip_entries(a) + ip_entries(b),
        !single.contains(',') && trimmed(single).len() > 0 ==> ip_entries(seq![single]) == seq![
            trimmed(single),
        ],
        !single.contains(',') && trimmed(single).len() == 0 ==> ip_entries(seq![single]).len() == 0,
{
    lemma_all_pieces_concat(a, b);
    lemma_without_blanks_concat(all_pieces(a), all_pieces(b));
    if !single.contains(',') {
        let raw = seq![single];
        lemma_split_single(single, ',');
        assert(raw.drop_last() =~= Seq::<Seq<char>>::empty());
        assert(raw.last() == single);
        assert(all_pieces(raw.drop_last()) == Seq::<Seq<char>>::empty());
        assert(all_pieces(raw) =~= raw);
        assert(without_blanks(raw.drop_last()) == Seq::<Seq<char>>::empty());
        if trimmed(single).len() > 0 {
            assert(without_blanks(raw) =~= seq![trimmed(single)]);
        }
    }
}

/// The entry that a request is refused for is the first that is no address: all before it are.
pub proof fn law_refused_entry_is_the_first(entries: Seq<Seq<char>>)
    ensures
        first_non_address(entries) matches Some(entry) ==> exists|i: int|
            0 <= i < entries.len() && entry == #[trigger] entries[i] && ip_of_text(entries[i]) is None
                && forall|j: int| 0 <= j < i ==> ip_of_text(#[trigger] entries[j]) is Some,
        first_non_address(entries) is None <==> forall|i: int|
            0 <= i < entries.len() ==> ip_of_text(#[trigger] entries[i]) is Some,
    decreases entries.len(),
{
    if entries.len() > 0 {
        let rest = entries.drop_last();
        law_refused_entry_is_the_first(rest);
        assert forall|i: int| 0 <= i < rest.len() implies rest[i] == #[trigger] entries[i] by {}
        let last = entries.len() - 1;
        assert(entries[last] == entries.last());
        if first_non_address(rest) is Some {
            let entry = first_non_address(rest)->0;
            let i = choose|i: int|
                0 <= i < rest.len() && entry == #[trigger] rest[i] && ip_of_text(rest[i]) is None
                    && forall|j: int| 0 <= j < i ==> ip_of_text(#[trigger] rest[j]) is Some;
            assert(entries[i] == rest[i]);
            assert forall|j: int| 0 <= j < i implies ip_of_text(#[trigger] entries[j]) is Some by {
                assert(rest[j] == entries[j]);
            }
        } else {
            assert forall|j: int| 0 <= j < last implies ip_of_text(
                #[trigger] entries[j],
            ) is Some by {
                assert(rest[j] == entries[j]);
            }
        }
    }
}

/// A list of addresses is answered for exactly the addresses that it names. It is refused for
/// the first entry that is no address, for having none, or for having more than the limit, and
/// for nothing else.
pub proof fn law_list_is_accepted_iff_sound(raw: Seq<Seq<char>>, max: nat)
    ensures
        ({
            let entries = ip_entries(raw);
            let ips = distinct_addresses(entries);
            &&& ips_outcome(raw, max) matches Ok(found) ==> found == ips
            &&& ips_outcome(raw, max) is Ok <==> entries.len() > 0 && ips.len() <= max && forall|
                i: int,
            |
                0 <= i < entries.len() ==> ip_of_text(#[trigger] entries[i]) is Some
            &&& first_non_address(entries) matches Some(entry) ==> ips_outcome(raw, max) == Err::<
                Seq<IpAddr>,
                ApiErrorView,
            >(ApiErrorView::Validation("\""@ + entry + "\" is not a valid IP address"@))
            &&& entries.len() == 0 ==> ips_outcome(raw, max) == Err::<Seq<IpAddr>, ApiErrorView>(
                ApiErrorView::Validation("at least one ip parameter is required"@),
            )
            &&& first_non_address(entries) is None && entries.len() > 0 && ips.len() > max
                ==> ips_outcome(raw, max) == Err::<Seq<IpAddr>, ApiErrorView>(
                ApiErrorView::Validation(
                    "at most "@ + decimal(max) + " IP addresses per request, received "@ + decimal(
                        ips.len(),
                    ),
                ),
            )
        }),
{
    let entries = ip_entries(raw);
    law_refused_entry_is_the_first(entries);
    if first_non_address(entries) is None {
        law_addresses_are_distinct_and_complete(entries);
        if entries.len() > 0 {
            assert(distinct_addresses(entries).contains(ip_of_text(entries[0])->0));
        }
    }
}

/// A single address is what its text spells without the white space around it; the refusal
/// shows the text as it was sent.
pub proof fn law_single_address_is_what_it_spells(raw: Seq<char>)
    ensures
        ip_of_text(trimmed(raw)) matches Some(ip) ==> ip_outcome(raw) == Ok::<IpAddr, ApiErrorView>(
            ip,
        ),
        ip_of_text(trimmed(raw)) is None ==> ip_outcome(raw) == Err::<IpAddr, ApiErrorView>(
            ApiErrorView::Validation("\""@ + raw + "\" is not a valid IP address"@),
        ),
{
}

/// An address written by this service is accepted where an address is asked for: the texts of
/// the results of one endpoint can be handed to another.
pub proof fn law_written_address_is_accepted(text: Seq<char>, ip: IpAddr, max: nat)
    requires
        spells_address(text, ip),
        max >= 1,
    ensures
        ips_outcome(seq![text], max) == Ok::<Seq<IpAddr>, ApiErrorView>(seq![ip]),
        ip_outcome(text) == Ok::<IpAddr, ApiErrorView>(ip),
{
    let raw = seq![text];
    assert(!is_white_space(text[0]) && !is_white_space(text[text.len() - 1]));
    lemma_trimmed_id(text);
    assert(!text.contains(',')) by {
        if text.contains(',') {
            let i = choose|i: int| 0 <= i < text.len() && text[i] == ',';
            assert(is_address_char(text[i]));
        }
    }
    lemma_split_single(text, ',');
    assert(raw.drop_last() =~= Seq::<Seq<char>>::empty());
    assert(raw.last() == text);
    assert(all_pieces(raw.drop_last()) == Seq::<Seq<char>>::empty());
    assert(all_pieces(raw) =~= raw);
    assert(without_blanks(raw.drop_last()) == Seq::<Seq<char>>::empty());
    assert(without_blanks(raw) =~= raw);
    assert(first_non_address(raw.drop_last()) is None);
    assert(distinct_addresses(raw.drop_last()) == Seq::<IpAddr>::empty());
    assert(distinct_addresses(raw) =~= seq![ip]);
}

// ---- dates ---------------------------------------------------------------------------

/// What the text of a date comes to.
pub open spec fn date_outcome(raw: Seq<char>) -> Result<Date, ApiErrorView> {
    match date_of_text(trimmed(raw), DATE_FORMAT@) {
        Some(day) => Ok(Date { day }),
        None => Err(invalid("date \""@ + raw + "\" must be in YYYY-MM-DD format"@)),
    }
}

/// What an optional date comes to: today where it is omitted. A date after today is refused.
pub open spec fn resolved_date(raw: Option<Seq<char>>, today: Date) -> Result<Date, ApiErrorView> {
    let date = match raw {
        Some(text) => date_outcome(text),
        None => Ok(today),
    };
    match date {
        Ok(d) => if d.day > today.day {
            Err(
                invalid(
                    "date "@ + date_text(d.day as int) + " is in the future (today is "@
                        + date_text(today.day as int) + ")"@,
                ),
            )
        } else {
            Ok(d)
        },
        Err(err) => Err(err),
    }
}

/// The date that `raw` spells.
pub fn parse_date(raw: &str) -> (res: ApiResult<Date>)
    ensures
        match res {
            Ok(date) => date_outcome(raw@) == Ok::<Date, ApiErrorView>(date) && date.wf(),
            Err(err) => date_outcome(raw@) == Err::<Date, ApiErrorView>(err@),
        },
        match date_of_text(trimmed(raw@), DATE_FORMAT@) {
            Some(day) => res == Ok::<Date, ApiError>(Date { day }),
            None => res matches Err(err) && err@ == ApiErrorView::Validation(
                "date \""@ + raw@ + "\" must be in YYYY-MM-DD format"@,
            ),
        },
        forall|y: int, m: int, d: int|
            is_civil(y, m, d) && trimmed(raw@) == #[trigger] civil_text(y, m, d) ==> (
            res matches Ok(date) && date.day == day_number(y, m, d) as i32),
{
    match Date::parse(trim(raw)) {
        Some(date) => Ok(date),
        None => {
            let mut message = "date \"".to_owned();
            message.append(raw);
            message.append("\" must be in YYYY-MM-DD format");
            Err(ApiError::validation(message))
        },
    }
}

/// The date of a request: today where it gives none, and never one after today.
pub fn resolve_date(raw: Option<&str>, today: Date) -> (res: ApiResult<Date>)
    requires
        today.wf(),
    ensures
        match res {
            Ok(date) => resolved_date(opt_view(raw), today) == Ok::<Date, ApiErrorView>(date)
                && date.wf(),
            Err(err) => resolved_date(opt_view(raw), today) == Err::<Date, ApiErrorView>(err@),
        },
        raw is None ==> res == Ok::<Date, ApiError>(today),
        raw matches Some(text) ==> (res matches Ok(date) ==> date_of_text(
            trimmed(text@),
            DATE_FORMAT@,
        ) == Some(date.day)),
        raw matches Some(text) ==> (res is Ok <==> (date_of_text(
            trimmed(text@),
            DATE_FORMAT@,
        ) matches Some(day) && day <= today.day)),
{
    let date = match raw {
        Some(text) => match parse_date(text) {
            Ok(date) => date,
            Err(err) => {
                return Err(err);
            },
        },
        None => today,
    };
    if date.day > today.day {
        let mut message = "date ".to_owned();
        let date_string = date.to_text();
        message.append(date_string.as_str());
        message.append(" is in the future (today is ");
        let today_string = today.to_text();
        message.append(today_string.as_str());
        message.append(")");
        return Err(ApiError::validation(message));
    }
    Ok(date)
}

/// No request gets data of a date after today, and without a date it gets today's.
pub proof fn law_resolved_date_is_not_in_the_future(raw: Option<Seq<char>>, today: Date)
    ensures
        resolved_date(raw, today) matches Ok(date) ==> date.day <= today.day,
        resolved_date(None, today) == Ok::<Date, ApiErrorView>(today),
{
}

/// The date of a request is the one that its text spells, wherever it spells one that is not
/// after today; a text that spells none and a date after today are refused with their own text.
pub proof fn law_date_is_the_one_given(text: Seq<char>, today: Date)
    ensures
        match date_of_text(trimmed(text), DATE_FORMAT@) {
            Some(day) => if day <= today.day {
                resolved_date(Some(text), today) matches Ok(date) && date.day == day
            } else {
                resolved_date(Some(text), today) == Err::<Date, ApiErrorView>(
                    ApiErrorView::Validation(
                        "date "@ + date_text(day as int) + " is in the future (today is "@
                            + date_text(today.day as int) + ")"@,
                    ),
                )
            },
            None => resolved_date(Some(text), today) == Err::<Date, ApiErrorView>(
                ApiErrorView::Validation(
                    "date \""@ + text + "\" must be in YYYY-MM-DD format"@,
                ),
            ),
        },
        resolved_date(Some(text), today) matches Ok(date) ==> date_outcome(text) == Ok::<
            Date,
            ApiErrorView,
        >(date),
        resolved_date(None, today) == Ok::<Date, ApiErrorView>(today),
{
}

/// A date is read as year, month and day, in this order and with hyphens between them.
pub proof fn law_date_format()
    ensures
        DATE_FORMAT@ == "%Y-%m-%d"@,
{
}

// ---- sources -------------------------------------------------------------------------

/// The answer to a source that may not use the endpoint of a section of the configuration;
/// nothing where it may. An empty list means that the endpoint is disabled.
pub open spec fn source_error(
    allowed: Seq<IpNetwork>,
    client: IpAddr,
    section: Seq<char>,
) -> Option<ApiErrorView> {
    if allowed.len() == 0 {
        Some(
            ApiErrorView::Forbidden(
                "this endpoint is disabled: "@ + section + ".allowed_ips is empty"@,
            ),
        )
    } else if !any_covers(allowed, client) {
        Some(
            ApiErrorView::Forbidden(
                "source IP "@ + address_text(client) + " is not in the "@ + section
                    + " allow list"@,
            ),
        )
    } else {
        None
    }
}

/// The check of the source that the endpoints share which list addresses. A list that was
/// left empty closes the endpoint: a mistake in the configuration shows nothing rather than
/// everything.
pub fn require_allowed_source(
    enabled: bool,
    allowed: bool,
    client_ip: IpAddr,
    section: &str,
) -> (res: ApiResult<()>)
    ensures
        match res {
            Ok(_) => enabled && allowed,
            Err(err) => if !enabled {
                err@ == ApiErrorView::Forbidden(
                    "this endpoint is disabled: "@ + section@ + ".allowed_ips is empty"@,
                )
            } else {
                !allowed && err@ == ApiErrorView::Forbidden(
                    "source IP "@ + address_text(client_ip) + " is not in the "@ + section@
                        + " allow list"@,
                )
            },
        },
{
    if !enabled {
        let mut message = "this endpoint is disabled: ".to_owned();
        message.append(section);
        message.append(".allowed_ips is empty");
        return Err(ApiError::forbidden(message));
    }
    if !allowed {
        let mut message = "source IP ".to_owned();
        let ip = client_ip.to_text();
        message.append(ip.as_str());
        message.append(" is not in the ");
        message.append(section);
        message.append(" allow list");
        return Err(ApiError::forbidden(message));
    }
    Ok(())
}

/// An endpoint whose list is empty refuses everybody.
pub proof fn law_empty_list_closes_the_endpoint(
    allowed: Seq<IpNetwork>,
    client: IpAddr,
    section: Seq<char>,
)
    requires
        allowed.len() == 0,
    ensures
        source_error(allowed, client, section) matches Some(err) && err.status() == 403,
{
}

/// A refused source is told why: that the endpoint is disabled where its list is empty, and else
/// that the list does not have its address. Both are answered with 403 and name the section.
pub proof fn law_refused_source_is_told_why(
    allowed: Seq<IpNetwork>,
    client: IpAddr,
    section: Seq<char>,
)
    ensures
        allowed.len() == 0 ==> source_error(allowed, client, section) == Some(
            ApiErrorView::Forbidden(
                "this endpoint is disabled: "@ + section + ".allowed_ips is empty"@,
            ),
        ),
        allowed.len() > 0 && (forall|i: int|
            0 <= i < allowed.len() ==> !(#[trigger] allowed[i]).covers(client)) ==> source_error(
            allowed,
            client,
            section,
        ) == Some(
            ApiErrorView::Forbidden(
                "source IP "@ + address_text(client) + " is not in the "@ + section
                    + " allow list"@,
            ),
        ),
        (exists|i: int| 0 <= i < allowed.len() && (#[trigger] allowed[i]).covers(client))
            ==> source_error(allowed, client, section) is None,
{
}

/// A source gets through exactly where a network of the list covers it.
pub proof fn law_source_passes_iff_covered(
    allowed: Seq<IpNetwork>,
    client: IpAddr,
    section: Seq<char>,
)
    ensures
        source_error(allowed, client, section) is None <==> any_covers(allowed, client),
{
}

// ---- endpoints -----------------------------------------------------------------------

/// The view of an optional parameter.
pub open spec fn opt_string_view(text: Option<String>) -> Option<Seq<char>> {
    match text {
        Some(t) => Some(t@),
        None => None,
    }
}

/// An optional parameter as a borrowed text.
fn as_opt_str(text: &Option<String>) -> (out: Option<&str>)
    ensures
        opt_view(out) == opt_string_view(*text),
{
    match text {
        Some(t) => Some(t.as_str()),
        None => None,
    }
}

/// The parameters of a request for today's usage.
#[derive(Debug)]
pub struct TodayParams {
    pub ip: Vec<String>,
}

/// What is asked of the database for today's usage.
#[derive(Debug)]
pub struct TodayQuery {
    pub day: Date,
    pub ips: Vec<IpAddr>,
}

/// Today's usage of one or more addresses.
pub fn today(
    _key: &AuthenticatedKey,
    params: &TodayParams,
    limits: &LimitsConfig,
    day: Date,
) -> (res: ApiResult<TodayQuery>)
    ensures
        match res {
            Ok(query) => query.day == day && ips_outcome(
                views(params.ip@),
                limits.max_ips_per_request as nat,
            ) == Ok::<Seq<IpAddr>, ApiErrorView>(query.ips@),
            Err(err) => ips_outcome(views(params.ip@), limits.max_ips_per_request as nat) == Err::<
                Seq<IpAddr>,
                ApiErrorView,
            >(err@),
        },
        res matches Ok(query) ==> query.day == day && 1 <= query.ips@.len()
            <= limits.max_ips_per_request && query.ips@.no_duplicates(),
{
    match parse_ips(&params.ip, limits.max_ips_per_request) {
        Ok(ips) => Ok(TodayQuery { day, ips }),
        Err(err) => Err(err),
    }
}

/// The parameters of a request for the usage of a week.
#[derive(Debug)]
pub struct SingleIpParams {
    pub ip: String,
}

/// What is asked of the database for the usage of a week.
#[derive(Debug)]
pub struct WeekQuery {
    pub ip: IpAddr,
    pub first: Date,
    pub today: Date,
}

/// The usage of one address on today and the six days before.
pub fn week(_key: &AuthenticatedKey, params: &SingleIpParams, today: Date) -> (res: ApiResult<
    WeekQuery,
>)
    requires
        today.wf(),
        today.day - 6 >= DAY_MIN,
    ensures
        match res {
            Ok(query) => ip_outcome(params.ip@) == Ok::<IpAddr, ApiErrorView>(query.ip)
                && query.today == today && query.first == (Date { day: (today.day - 6) as i32 }),
            Err(err) => ip_outcome(params.ip@) == Err::<IpAddr, ApiErrorView>(err@),
        },
        match ip_of_text(trimmed(params.ip@)) {
            Some(ip) => res matches Ok(query) && query.ip == ip && query.today == today
                && query.first.day == today.day - 6,
            None => res is Err,
        },
{
    match parse_single_ip(params.ip.as_str()) {
        Ok(ip) => Ok(WeekQuery { ip, first: week_first_day(today), today }),
        Err(err) => Err(err),
    }
}

/// The parameters of a request for the distribution over a day.
#[derive(Debug)]
pub struct DailyParams {
    pub ip: String,
    pub date: Option<String>,
}

/// What is asked of the database for the distribution over a day: the buckets of an address
/// from `start` on and before `end`.
#[derive(Debug)]
pub struct DailyQuery {
    pub ip: IpAddr,
    pub date: Date,
    pub start: UtcTime,
    pub end: UtcTime,
}

/// The answer to a date whose five-minute statistics are no longer kept.
pub open spec fn not_retained(date: Date, earliest: int) -> ApiErrorView {
    invalid(
        "date "@ + date_text(date.day as int)
            + " is outside the retention window of the 5-minute statistics (earliest available: "@
            + date_text(earliest)
            + "); those buckets have been dropped by the retention policy, only daily totals remain"@,
    )
}

/// What a request for the distribution over a day comes to.
pub open spec fn daily_outcome(
    ip: Seq<char>,
    date: Option<Seq<char>>,
    max_age_days: int,
    today: Date,
) -> Result<(IpAddr, Date, UtcTime, UtcTime), ApiErrorView> {
    match (ip_outcome(ip), resolved_date(date, today)) {
        (Err(err), _) => Err(err),
        (_, Err(err)) => Err(err),
        (Ok(addr), Ok(d)) => if d.day < today.day - max_age_days {
            Err(not_retained(d, today.day - max_age_days))
        } else {
            match day_bounds(d) {
                Some((start, end)) => Ok((addr, d, start, end)),
                None => Err(no_such_day(d)),
            }
        },
    }
}

/// The answer to a date whose five-minute statistics are no longer kept.
fn refuse_unretained(date: Date, earliest: Date) -> (err: ApiError)
    requires
        date.wf(),
        earliest.wf(),
    ensures
        err@ == not_retained(date, earliest.day as int),
{
    let mut message = "date ".to_owned();
    let date_string = date.to_text();
    message.append(date_string.as_str());
    message.append(
        " is outside the retention window of the 5-minute statistics (earliest available: ",
    );
    let earliest_string = earliest.to_text();
    message.append(earliest_string.as_str());
    message.append(
        "); those buckets have been dropped by the retention policy, only daily totals remain",
    );
    ApiError::validation(message)
}

/// The usage of one address in the five-minute buckets of a day. A date whose buckets have
/// been dropped is refused: zeros would look like a day without traffic.
pub fn daily(
    _key: &AuthenticatedKey,
    params: &DailyParams,
    limits: &LimitsConfig,
    today: Date,
) -> (res: ApiResult<DailyQuery>)
    requires
        today.wf(),
        DAY_MIN <= today.day - limits.distribution_max_age_days <= DAY_MAX,
    ensures
        match res {
            Ok(query) => daily_outcome(
                params.ip@,
                opt_string_view(params.date),
                limits.distribution_max_age_days as int,
                today,
            ) == Ok::<(IpAddr, Date, UtcTime, UtcTime), ApiErrorView>(
                (query.ip, query.date, query.start, query.end),
            ) && query.date.wf() && query.start.wf() && query.end.wf(),
            Err(err) => daily_outcome(
                params.ip@,
                opt_string_view(params.date),
                limits.distribution_max_age_days as int,
                today,
            ) == Err::<(IpAddr, Date, UtcTime, UtcTime), ApiErrorView>(err@),
        },
        ip_outcome(params.ip@) is Ok && (resolved_date(opt_string_view(params.date), today) matches Ok(
            d,
        ) && d.day >= today.day - limits.distribution_max_age_days && d.day >= TAIPEI_SETTLED_DAY)
            ==> res is Ok,
        res matches Ok(query) ==> {
            &&& ip_of_text(trimmed(params.ip@)) == Some(query.ip)
            &&& params.date is None ==> query.date == today
            &&& params.date matches Some(text) ==> date_of_text(trimmed(text@), DATE_FORMAT@)
                == Some(query.date.day)
            &&& today.day - limits.distribution_max_age_days <= query.date.day <= today.day
            &&& day_bounds(query.date) == Some((query.start, query.end))
        },
        res matches Ok(query) ==> query.date.day >= TAIPEI_SETTLED_DAY ==> query.start
            == UtcTime::at(settled_midnight(query.date.day as int)) && query.end == UtcTime::at(
            settled_midnight(query.date.day + 1),
        ),
{
    let ip = match parse_single_ip(params.ip.as_str()) {
        Ok(ip) => ip,
        Err(err) => {
            return Err(err);
        },
    };
    let date = match resolve_date(as_opt_str(&params.date), today) {
        Ok(date) => date,
        Err(err) => {
            return Err(err);
        },
    };
    let earliest = Date { day: (today.day as i64 - limits.distribution_max_age_days) as i32 };
    if date.day < earliest.day {
        return Err(refuse_unretained(date, earliest));
    }
    match daily_window(date) {
        Ok((start, end)) => Ok(DailyQuery { ip, date, start, end }),
        Err(err) => Err(err),
    }
}

/// No request gets the buckets of a date that is older than they are kept or after today.
pub proof fn law_daily_stays_within_the_retention_window(
    ip: Seq<char>,
    date: Option<Seq<char>>,
    max_age_days: int,
    today: Date,
)
    ensures
        daily_outcome(ip, date, max_age_days, today) matches Ok((_, d, _, _)) ==> today.day
            - max_age_days <= d.day <= today.day,
{
}

/// An accepted request for the distribution over a day asks for the address and the date that
/// it gives, today's where it gives no date, and for the buckets of exactly that date.
pub proof fn law_daily_asks_for_what_was_given(
    ip: Seq<char>,
    date: Option<Seq<char>>,
    max_age_days: int,
    today: Date,
)
    ensures
        daily_outcome(ip, date, max_age_days, today) matches Ok((addr, d, start, end)) ==> {
            &&& ip_of_text(trimmed(ip)) == Some(addr)
            &&& date is None ==> d == today
            &&& date matches Some(text) ==> date_of_text(trimmed(text), DATE_FORMAT@) == Some(d.day)
            &&& taipei_midnight(d.day as int) matches Some(s) && start == UtcTime::at(s as int)
                && end == UtcTime::at(s + 86_400)
            &&& ip_outcome(ip) == Ok::<IpAddr, ApiErrorView>(addr)
            &&& resolved_date(date, today) == Ok::<Date, ApiErrorView>(d)
            &&& today.day - max_age_days <= d.day <= today.day
        },
{
}

/// A request for the distribution over a day is accepted exactly where its address and its date
/// are, the date is within the retention window, and it has a beginning. Else the answer is that
/// to the address, to the date, to its age, or to its having no beginning, whichever is first.
pub proof fn law_daily_is_accepted_iff_sound(
    ip: Seq<char>,
    date: Option<Seq<char>>,
    max_age_days: int,
    today: Date,
)
    ensures
        ({
            let outcome = daily_outcome(ip, date, max_age_days, today);
            &&& ip_outcome(ip) matches Err(err) ==> outcome == Err::<
                (IpAddr, Date, UtcTime, UtcTime),
                ApiErrorView,
            >(err)
            &&& ip_outcome(ip) is Ok ==> (resolved_date(date, today) matches Err(err) ==> outcome
                == Err::<(IpAddr, Date, UtcTime, UtcTime), ApiErrorView>(err))
            &&& ip_outcome(ip) is Ok ==> (resolved_date(date, today) matches Ok(d) ==> {
                &&& d.day >= today.day - max_age_days && taipei_midnight(d.day as int) is Some
                    <==> outcome is Ok
                &&& d.day < today.day - max_age_days ==> outcome == Err::<
                    (IpAddr, Date, UtcTime, UtcTime),
                    ApiErrorView,
                >(
                    ApiErrorView::Validation(
                        "date "@ + date_text(d.day as int)
                            + " is outside the retention window of the 5-minute statistics (earliest available: "@
                            + date_text(today.day - max_age_days)
                            + "); those buckets have been dropped by the retention policy, only daily totals remain"@,
                    ),
                )
                &&& d.day >= today.day - max_age_days && taipei_midnight(d.day as int) is None
                    ==> outcome == Err::<(IpAddr, Date, UtcTime, UtcTime), ApiErrorView>(
                    ApiErrorView::Validation(date_text(d.day as int) + " is not a valid date"@),
                )
            })
        }),
{
}

/// The parameters of a threshold check. The threshold is the bits of a double.
#[derive(Debug)]
pub struct ExceededParams {
    pub threshold_mib_bits: u64,
    pub date: Option<String>,
}

/// What is asked of the database for a threshold check.
#[derive(Debug)]
pub struct ExceededQuery {
    pub date: Date,
    pub threshold_mib_bits: u64,
    pub threshold_bytes: i64,
}

/// What a threshold check comes to: date and threshold in bytes.
pub open spec fn exceeded_outcome(
    allowed: Seq<IpNetwork>,
    client: IpAddr,
    threshold_mib_bits: u64,
    date: Option<Seq<char>>,
    today: Date,
) -> Result<(Date, i64), ApiErrorView> {
    match source_error(allowed, client, "threshold_check"@) {
        Some(err) => Err(err),
        None => match threshold_error(threshold_mib_bits) {
            Some(err) => Err(err),
            None => match resolved_date(date, today) {
                Ok(d) => Ok((d, threshold_bytes_of(threshold_mib_bits))),
                Err(err) => Err(err),
            },
        },
    }
}

/// The addresses whose traffic with the outside was over a threshold on a day. The answer
/// lists addresses, so the source must be on the list of the threshold check. Daily totals
/// are kept for ever, so there is no earliest date.
pub fn exceeded(
    _key: &AuthenticatedKey,
    client: ClientIp,
    params: &ExceededParams,
    config: &LoadedConfig,
    today: Date,
) -> (res: ApiResult<ExceededQuery>)
    requires
        config.wf(),
        today.wf(),
    ensures
        match res {
            Ok(query) => exceeded_outcome(
                config.threshold_allowed_ips@,
                client.0,
                params.threshold_mib_bits,
                opt_string_view(params.date),
                today,
            ) == Ok::<(Date, i64), ApiErrorView>((query.date, query.threshold_bytes))
                && query.threshold_mib_bits == params.threshold_mib_bits && query.date.wf()
                && query.threshold_bytes >= 0,
            Err(err) => exceeded_outcome(
                config.threshold_allowed_ips@,
                client.0,
                params.threshold_mib_bits,
                opt_string_view(params.date),
                today,
            ) == Err::<(Date, i64), ApiErrorView>(err@),
        },
        res matches Ok(query) ==> {
            &&& any_covers(config.threshold_allowed_ips@, client.0)
            &&& params.date is None ==> query.date == today
            &&& params.date matches Some(text) ==> date_of_text(trimmed(text@), DATE_FORMAT@)
                == Some(query.date.day)
            &&& query.date.day <= today.day
            &&& forall|n: nat| #[trigger]
                denotes(params.threshold_mib_bits, n) && n * 1_048_576 <= i64::MAX
                    ==> query.threshold_bytes == n * 1_048_576
        },
{
    proof {
        assert forall|n: nat| #[trigger]
            denotes(params.threshold_mib_bits, n) && is_finite(params.threshold_mib_bits) && n
                * 1_048_576 <= i64::MAX implies threshold_bytes_of(params.threshold_mib_bits) == n
            * 1_048_576 by {
            law_whole_mib_is_exact(params.threshold_mib_bits, n);
        }
    }
    match require_allowed_source(
        config.threshold_check_enabled(),
        config.threshold_check_allows(client.0),
        client.0,
        "threshold_check",
    ) {
        Ok(_) => {},
        Err(err) => {
            return Err(err);
        },
    }
    let bytes = match threshold_bytes(params.threshold_mib_bits) {
        Ok(bytes) => bytes,
        Err(err) => {
            return Err(err);
        },
    };
    match resolve_date(as_opt_str(&params.date), today) {
        Ok(date) => Ok(
            ExceededQuery {
                date,
                threshold_mib_bits: params.threshold_mib_bits,
                threshold_bytes: bytes,
            },
        ),
        Err(err) => Err(err),
    }
}

/// An accepted threshold check asks for exactly the bytes of its threshold: `n` times 1048576
/// for a threshold of `n` MiB, and else the whole number of bytes nearest to it. It asks for the
/// date given, today's where none is, and only for a source that a network of the list covers.
pub proof fn law_threshold_check_asks_for_what_was_given(
    allowed: Seq<IpNetwork>,
    client: IpAddr,
    bits: u64,
    date: Option<Seq<char>>,
    today: Date,
    n: nat,
)
    ensures
        exceeded_outcome(allowed, client, bits, date, today) matches Ok((d, bytes)) ==> {
            &&& exists|i: int| 0 <= i < allowed.len() && (#[trigger] allowed[i]).covers(client)
            &&& is_finite(bits) && (!has_sign(bits) || mantissa(bits) == 0)
            &&& denotes(bits, n) && n * 1_048_576 <= i64::MAX ==> bytes == n * 1_048_576
            &&& exponent(bits) >= -20 ==> ({
                let exact = mantissa(bits) * pow2((exponent(bits) + 20) as nat);
                (exact <= i64::MAX ==> bytes == exact) && (exact > i64::MAX ==> bytes == i64::MAX)
            })
            &&& exponent(bits) < -20 ==> ({
                let parts = pow2((-exponent(bits) - 20) as nat);
                (2 * bytes - 1) * parts <= 2 * mantissa(bits) < (2 * bytes + 1) * parts
            })
            &&& date is None ==> d == today
            &&& date matches Some(text) ==> date_of_text(trimmed(text), DATE_FORMAT@) == Some(d.day)
            &&& d.day <= today.day
        },
{
    if is_finite(bits) {
        law_bytes_are_those_of_the_mib(bits);
        if denotes(bits, n) {
            law_whole_mib_is_exact(bits, n);
        }
    }
}

/// A threshold check is accepted exactly where its source, its threshold and its date are. Else
/// the answer is that to the first of them that is not.
pub proof fn law_threshold_check_is_accepted_iff_sound(
    allowed: Seq<IpNetwork>,
    client: IpAddr,
    bits: u64,
    date: Option<Seq<char>>,
    today: Date,
)
    ensures
        ({
            let outcome = exceeded_outcome(allowed, client, bits, date, today);
            let source = source_error(allowed, client, "threshold_check"@);
            &&& source matches Some(err) ==> outcome == Err::<(Date, i64), ApiErrorView>(err)
            &&& source is None ==> (threshold_error(bits) matches Some(err) ==> outcome == Err::<
                (Date, i64),
                ApiErrorView,
            >(err))
            &&& source is None && threshold_error(bits) is None ==> (resolved_date(
                date,
                today,
            ) matches Err(err) ==> outcome == Err::<(Date, i64), ApiErrorView>(err))
            &&& outcome is Ok <==> source is None && threshold_error(bits) is None
                && resolved_date(date, today) is Ok
        }),
{
}

/// A higher threshold is never fewer bytes: of two accepted checks, the one whose threshold is a
/// greater whole number of MiB asks for more bytes.
pub proof fn law_more_mib_are_more_bytes(a: u64, b: u64, m: nat, n: nat)
    requires
        is_finite(a) && is_finite(b),
        denotes(a, m) && denotes(b, n),
        m < n,
        n * 1_048_576 <= i64::MAX,
    ensures
        threshold_bytes_of(b) - threshold_bytes_of(a) == (n - m) * 1_048_576,
{
    law_whole_mib_is_exact(a, m);
    law_whole_mib_is_exact(b, n);
}

/// The parameters of a ranking.
#[derive(Debug)]
pub struct TopParams {
    pub limit: Option<usize>,
    pub date: Option<String>,
}

/// What is asked of the database for a ranking.
#[derive(Debug)]
pub struct TopQuery {
    pub date: Date,
    pub limit: usize,
}

/// The length of a ranking: the one asked for, else the default; from one to the greatest.
pub open spec fn limit_outcome(limit: Option<usize>, default: usize, max: usize) -> Result<
    usize,
    ApiErrorView,
> {
    let n = match limit {
        Some(n) => n,
        None => default,
    };
    if n == 0 || n > max {
        Err(
            invalid(
                "limit must be between 1 and "@ + decimal(max as nat) + " (received "@ + decimal(
                    n as nat,
                ) + ")"@,
            ),
        )
    } else {
        Ok(n)
    }
}

/// What a request for a ranking comes to: date and length.
pub open spec fn top_outcome(
    allowed: Seq<IpNetwork>,
    client: IpAddr,
    limit: Option<usize>,
    default: usize,
    max: usize,
    date: Option<Seq<char>>,
    today: Date,
) -> Result<(Date, usize), ApiErrorView> {
    match source_error(allowed, client, "top_n"@) {
        Some(err) => Err(err),
        None => match limit_outcome(limit, default, max) {
            Err(err) => Err(err),
            Ok(n) => match resolved_date(date, today) {
                Ok(d) => Ok((d, n)),
                Err(err) => Err(err),
            },
        },
    }
}

/// The length of a ranking. One that is out of range is refused and not cut: a caller would
/// take the cut ranking for the whole.
fn resolve_limit(limit: Option<usize>, limits: &LimitsConfig) -> (res: ApiResult<usize>)
    ensures
        match res {
            Ok(n) => limit_outcome(limit, limits.top_n_default_limit, limits.top_n_max_limit)
                == Ok::<usize, ApiErrorView>(n),
            Err(err) => limit_outcome(limit, limits.top_n_default_limit, limits.top_n_max_limit)
                == Err::<usize, ApiErrorView>(err@),
        },
{
    let n: usize = match limit {
        Some(n) => n,
        None => limits.top_n_default_limit,
    };
    if n == 0 || n > limits.top_n_max_limit {
        let mut message = "limit must be between 1 and ".to_owned();
        let max_text = decimal_text(limits.top_n_max_limit as u64);
        message.append(max_text.as_str());
        message.append(" (received ");
        let received = decimal_text(n as u64);
        message.append(received.as_str());
        message.append(")");
        return Err(ApiError::validation(message));
    }
    Ok(n)
}

/// The addresses with the most traffic with the outside on a day. The answer lists
/// addresses, so the source must be on the list of the ranking, which is not that of the
/// threshold check.
pub fn top(
    _key: &AuthenticatedKey,
    client: ClientIp,
    params: &TopParams,
    config: &LoadedConfig,
    today: Date,
) -> (res: ApiResult<TopQuery>)
    requires
        config.wf(),
        today.wf(),
    ensures
        match res {
            Ok(query) => top_outcome(
                config.top_n_allowed_ips@,
                client.0,
                params.limit,
                config.config.limits.top_n_default_limit,
                config.config.limits.top_n_max_limit,
                opt_string_view(params.date),
                today,
            ) == Ok::<(Date, usize), ApiErrorView>((query.date, query.limit))
                && query.date.wf(),
            Err(err) => top_outcome(
                config.top_n_allowed_ips@,
                client.0,
                params.limit,
                config.config.limits.top_n_default_limit,
                config.config.limits.top_n_max_limit,
                opt_string_view(params.date),
                today,
            ) == Err::<(Date, usize), ApiErrorView>(err@),
        },
        res matches Ok(query) ==> {
            &&& any_covers(config.top_n_allowed_ips@, client.0)
            &&& params.limit matches Some(n) ==> query.limit == n
            &&& params.limit is None ==> query.limit == config.config.limits.top_n_default_limit
            &&& 1 <= query.limit <= config.config.limits.top_n_max_limit
            &&& params.date is None ==> query.date == today
            &&& params.date matches Some(text) ==> date_of_text(trimmed(text@), DATE_FORMAT@)
                == Some(query.date.day)
            &&& query.date.day <= today.day
        },
{
    match require_allowed_source(
        config.top_n_enabled(),
        config.top_n_allows(client.0),
        client.0,
        "top_n",
    ) {
        Ok(_) => {},
        Err(err) => {
            return Err(err);
        },
    }
    let limit = match resolve_limit(params.limit, &config.config.limits) {
        Ok(limit) => limit,
        Err(err) => {
            return Err(err);
        },
    };
    match resolve_date(as_opt_str(&params.date), today) {
        Ok(date) => Ok(TopQuery { date, limit }),
        Err(err) => Err(err),
    }
}

/// The length of a ranking is from one to the greatest, and the one asked for where one was.
pub proof fn law_limit_is_never_cut(limit: Option<usize>, default: usize, max: usize)
    ensures
        limit_outcome(limit, default, max) matches Ok(n) ==> 1 <= n <= max && (limit is Some
            ==> limit == Some(n)) && (limit is None ==> n == default),
{
}

/// A length out of range is refused with the range and the length, and no other is.
pub proof fn law_limit_is_refused_iff_out_of_range(
    limit: Option<usize>,
    default: usize,
    max: usize,
)
    ensures
        ({
            let n = if limit is Some {
                limit->0
            } else {
                default
            };
            &&& limit_outcome(limit, default, max) is Ok <==> 1 <= n <= max
            &&& !(1 <= n <= max) ==> limit_outcome(limit, default, max) == Err::<
                usize,
                ApiErrorView,
            >(
                ApiErrorView::Validation(
                    "limit must be between 1 and "@ + decimal(max as nat) + " (received "@
                        + decimal(n as nat) + ")"@,
                ),
            )
        }),
{
}

/// An accepted ranking has the length asked for, or the default where none was, never less and
/// never more; it is of the date given, today's where none is, and only for a source that a
/// network of the list covers.
pub proof fn law_ranking_is_of_what_was_asked(
    allowed: Seq<IpNetwork>,
    client: IpAddr,
    limit: Option<usize>,
    default: usize,
    max: usize,
    date: Option<Seq<char>>,
    today: Date,
)
    ensures
        top_outcome(allowed, client, limit, default, max, date, today) matches Ok((d, n)) ==> {
            &&& exists|i: int| 0 <= i < allowed.len() && (#[trigger] allowed[i]).covers(client)
            &&& limit matches Some(k) ==> n == k
            &&& limit is None ==> n == default
            &&& 1 <= n <= max
            &&& date is None ==> d == today
            &&& date matches Some(text) ==> date_of_text(trimmed(text), DATE_FORMAT@) == Some(d.day)
            &&& d.day <= today.day
        },
{
}

/// A ranking is accepted exactly where its source, its length and its date are. Else the answer
/// is that to the first of them that is not.
pub proof fn law_ranking_is_accepted_iff_sound(
    allowed: Seq<IpNetwork>,
    client: IpAddr,
    limit: Option<usize>,
    default: usize,
    max: usize,
    date: Option<Seq<char>>,
    today: Date,
)
    ensures
        ({
            let outcome = top_outcome(allowed, client, limit, default, max, date, today);
            let source = source_error(allowed, client, "top_n"@);
            let length = limit_outcome(limit, default, max);
            &&& source matches Some(err) ==> outcome == Err::<(Date, usize), ApiErrorView>(err)
            &&& source is None ==> (length matches Err(err) ==> outcome == Err::<
                (Date, usize),
                ApiErrorView,
            >(err))
            &&& source is None && length is Ok ==> (resolved_date(date, today) matches Err(err)
                ==> outcome == Err::<(Date, usize), ApiErrorView>(err))
            &&& outcome is Ok <==> source is None && length is Ok && resolved_date(
                date,
                today,
            ) is Ok
        }),
{
}

/// An optional parameter is there exactly where its view is, and is that text.
pub proof fn law_optional_parameter_is_itself(text: Option<String>)
    ensures
        opt_string_view(text) is Some <==> text is Some,
        text matches Some(t) ==> opt_string_view(text) == Some(t@),
{
}

/// The two endpoints that list addresses are opened by their own lists alone. With its list
/// empty each answers 403, whatever the list of the other.
pub proof fn law_lists_do_not_unlock_each_other(
    config: LoadedConfig,
    client: IpAddr,
    threshold_mib_bits: u64,
    limit: Option<usize>,
    date: Option<Seq<char>>,
    today: Date,
)
    ensures
        config.threshold_allowed_ips@.len() == 0 ==> (exceeded_outcome(
            config.threshold_allowed_ips@,
            client,
            threshold_mib_bits,
            date,
            today,
        ) matches Err(err) && err.status() == 403),
        config.top_n_allowed_ips@.len() == 0 ==> (top_outcome(
            config.top_n_allowed_ips@,
            client,
            limit,
            config.config.limits.top_n_default_limit,
            config.config.limits.top_n_max_limit,
            date,
            today,
        ) matches Err(err) && err.status() == 403),
{
}

} // verus!
