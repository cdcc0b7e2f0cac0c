//! What the remote oracle reports, as plain values.
use crate::models::{reserves_opt, text_opt, AODryRunResponse, AOTag};
use crate::reserves::{is_token_id, names_token, ReserveMap};
use vstd::prelude::*;
use vstd::std_specs::iter::IteratorSpec;
use vstd::string::{StrSliceExecFns, StringExecFns};

verus! {

/// The two slot values of one process, read together, with the round-trip
/// time of each read in milliseconds.
#[derive(Clone, Copy, Debug, PartialEq, Eq, Structural)]
pub struct SlotCheckResult {
    pub computed_slot: u64,
    pub current_slot: u64,
    pub computed_response_time: u64,
    pub current_response_time: u64,
}

impl SlotCheckResult {
    /// The computation has reached the live head.
    pub open spec fn synced(self) -> bool {
        self.computed_slot == self.current_slot
    }

    /// How far the computation lags behind the live head; zero where it
    /// does not.
    pub open spec fn lag(self) -> u64 {
        if self.current_slot > self.computed_slot {
            (self.current_slot - self.computed_slot) as u64
        } else {
            0
        }
    }

    /// Whether the computed slot equals the current one.
    pub fn is_synced(&self) -> (r: bool)
        ensures
            r == self.synced(),
    {
        self.computed_slot == self.current_slot
    }

    /// The number of slots by which the current slot is ahead of the
    /// computed one, zero where it is not ahead.
    pub fn deficit(&self) -> (r: u64)
        ensures
            r == self.lag(),
            self.current_slot > self.computed_slot ==> r == self.current_slot - self.computed_slot,
            self.current_slot <= self.computed_slot ==> r == 0,
    {
        if self.current_slot > self.computed_slot {
            self.current_slot - self.computed_slot
        } else {
            0
        }
    }
}

/// The reserves of one process as the two sources report them; a source
/// that could not be read is absent.
#[derive(Debug)]
pub struct ReservesResult {
    pub hb_reserves: Option<ReserveMap>,
    pub ao_reserves: Option<ReserveMap>,
}

/// What a `ReservesResult` holds.
pub struct ReservesView {
    pub hb_reserves: Option<Map<Seq<char>, Seq<char>>>,
    pub ao_reserves: Option<Map<Seq<char>, Seq<char>>>,
}

impl View for ReservesResult {
    type V = ReservesView;

    open spec fn view(&self) -> ReservesView {
        ReservesView {
            hb_reserves: reserves_opt(self.hb_reserves),
            ao_reserves: reserves_opt(self.ao_reserves),
        }
    }
}

/// The reserves that a list of message tags reports: the value of every tag
/// whose name is a token identifier, a later tag replacing an earlier one of
/// the same name.
pub open spec fn tag_reserves(tags: Seq<AOTag>) -> Map<Seq<char>, Seq<char>>
    decreases tags.len(),
{
    if tags.len() == 0 {
        Map::empty()
    } else {
        let before = tag_reserves(tags.drop_last());
        if is_token_id(tags.last().name@) {
            before.insert(tags.last().name@, tags.last().value@)
        } else {
            before
        }
    }
}

/// The reserves that a dry-run answer reports: those of the tags of its
/// first message, none where it has no message.
pub open spec fn reported_reserves(response: AODryRunResponse) -> Map<Seq<char>, Seq<char>> {
    match response.messages {
        Some(messages) => if messages@.len() > 0 {
            tag_reserves(messages@[0].tags@)
        } else {
            Map::empty()
        },
        None => Map::empty(),
    }
}

/// Reads the reserves out of a dry-run answer.
pub fn extract_reserves(response: &AODryRunResponse) -> (r: ReserveMap)
    ensures
        r@ == reported_reserves(*response),
{
    let mut reserves = ReserveMap::new();
    match &response.messages {
        Some(messages) => {
            if messages.len() > 0 {
                let tags = &messages[0].tags;
                let mut i: usize = 0;
                proof {
                    assert(tags@.take(0) =~= Seq::empty());
                }
                while i < tags.len()
                    invariant
                        i <= tags@.len(),
                        reserves@ == tag_reserves(tags@.take(i as int)),
                    decreases tags@.len() - i,
                {
                    proof {
                        assert(tags@.take(i + 1).drop_last() == tags@.take(i as int));
                    }
                    if names_token(&tags[i].name) {
                        reserves.insert(tags[i].name.clone(), tags[i].value.clone());
                    }
                    i += 1;
                }
                proof {
                    assert(tags@.take(tags@.len() as int) == tags@);
                }
            }
        },
        None => {},
    }
    reserves
}

/// One entry of the oracle's cron listing.
#[derive(Debug)]
pub struct CronItem {
    /// When the cron was created, in milliseconds since the Unix epoch.
    pub created_at: u64,
    /// The path the cron calls; it names the process before the first `~`.
    pub path: String,
    pub pid: String,
    pub task_id: String,
    pub cron_type: String,
}

/// The envelope of the oracle's cron listing.
#[derive(Debug)]
pub struct CronListResponse {
    pub body: Vec<CronItem>,
    pub device: String,
    pub status: u16,
}

impl CronListResponse {
    /// The listed crons, or the status of an envelope that does not report
    /// success.
    pub fn into_items(self) -> (r: Result<Vec<CronItem>, u16>)
        ensures
            self.status == 200 ==> r == Ok::<Vec<CronItem>, u16>(self.body),
            self.status != 200 ==> r == Err::<Vec<CronItem>, u16>(self.status),
    {
        if self.status == 200 {
            Ok(self.body)
        } else {
            Err(self.status)
        }
    }
}

/// The text up to the first `~`, or all of it where there is none.
pub open spec fn until_tilde(s: Seq<char>) -> Seq<char>
    decreases s.len(),
{
    if s.len() == 0 || s[0] == '~' {
        Seq::empty()
    } else {
        seq![s[0]] + until_tilde(s.drop_first())
    }
}

/// The process that a cron path names: what stands between the leading `/`
/// and the first `~`. A path that does not start with `/` names none.
pub open spec fn path_process_id(path: Seq<char>) -> Option<Seq<char>> {
    if path.len() > 0 && path[0] == '/' {
        Some(until_tilde(path.skip(1)))
    } else {
        None
    }
}

/// A text up to the first `~` is a prefix of it without a `~`, and what
/// follows the prefix starts with `~` or is empty.
pub proof fn lemma_until_tilde(s: Seq<char>)
    ensures
        until_tilde(s).len() <= s.len(),
        until_tilde(s) == s.take(until_tilde(s).len() as int),
        forall|i: int| 0 <= i < until_tilde(s).len() ==> until_tilde(s)[i] != '~',
        until_tilde(s).len() < s.len() ==> s[until_tilde(s).len() as int] == '~',
    decreases s.len(),
{
    if s.len() == 0 || s[0] == '~' {
        assert(until_tilde(s) =~= s.take(0));
    } else {
        lemma_until_tilde(s.drop_first());
        let rest = until_tilde(s.drop_first());
        assert(until_tilde(s) =~= s.take(until_tilde(s).len() as int));
    }
}

/// The process that a cron path names.
pub fn process_id_of_path(path: &str) -> (r: Option<String>)
    ensures
        text_opt(r) == path_process_id(path@),
{
    broadcast use vstd::string::group_string_axioms;

    let total = path.unicode_len();
    let mut it = path.chars();
    match it.next() {
        Some(c) => {
            if c != '/' {
                return None;
            }
        },
        None => {
            return None;
        },
    }
    let ghost rest = path@.skip(1);
    let mut n: usize = 0;
    proof {
        assert(rest.take(0) =~= Seq::empty());
        assert(rest.skip(0) =~= rest);
        assert(it.remaining() =~= rest);
    }
    loop
        invariant_except_break
            it.obeys_prophetic_iter_laws(),
            it.decrease() is Some,
            it.remaining() == rest.skip(n as int),
            until_tilde(rest) == rest.take(n as int) + until_tilde(rest.skip(n as int)),
        invariant
            total == path@.len(),
            rest == path@.skip(1),
            rest.len() < total,
            n <= rest.len(),
        ensures
            n <= rest.len(),
            until_tilde(rest) == rest.take(n as int),
        decreases it.decrease()->0,
    {
        match it.next() {
            Some(c) => {
                if c == '~' {
                    proof {
                        assert(rest.take(n as int) + Seq::<char>::empty() =~= rest.take(n as int));
                    }
                    break ;
                }
                proof {
                    assert(rest.skip(n as int).len() > 0);
                    assert(rest.skip(n as int).drop_first() =~= rest.skip(n + 1));
                    assert(rest.take(n as int) + (seq![c] + until_tilde(rest.skip(n + 1)))
                        =~= rest.take(n + 1) + until_tilde(rest.skip(n + 1)));
                }
                n += 1;
            },
            None => {
                proof {
                    assert(rest.take(n as int) + Seq::<char>::empty() =~= rest.take(n as int));
                }
                break ;
            },
        }
    }
    let id = path.substring_char(1, n + 1);
    proof {
        assert(path@.subrange(1, n + 1) =~= rest.take(n as int));
    }
    Some(id.to_owned())
}

/// The address of the call that initializes the cron of a process.
pub open spec fn cron_once_address(base: Seq<char>, process_id: Seq<char>) -> Seq<char> {
    base + "/~cron@1.0/once?cron-path=/"@ + process_id + "~process@1.0/now"@
}

/// The address under which a process answers for one of its endpoints.
pub open spec fn process_address(base: Seq<char>, process_id: Seq<char>, endpoint: Seq<char>) -> Seq<
    char,
> {
    base + "/"@ + process_id + "~process@1.0/"@ + endpoint
}

/// The address of the dry-run call of the second reserve source.
pub open spec fn dry_run_address(cu_base: Seq<char>, process_id: Seq<char>) -> Seq<char> {
    cu_base + "/dry-run?process-id="@ + process_id
}

/// The address of the cron listing.
pub open spec fn cron_list_address(base: Seq<char>) -> Seq<char> {
    base + "/~cron@1.0/list/serialize~json@1.0"@
}

/// The endpoint of a process: its own where it has one, the default
/// otherwise.
pub fn endpoint_base<'a>(own: Option<&'a str>, default: &'a str) -> (r: &'a str)
    ensures
        r@ == (match own {
            Some(b) => b@,
            None => default@,
        }),
{
    match own {
        Some(b) => b,
        None => default,
    }
}

/// The address of the call that initializes the cron of a process.
pub fn cron_once_url(base: &str, process_id: &str) -> (r: String)
    ensures
        r@ == cron_once_address(base@, process_id@),
{
    String::from_str(base).concat("/~cron@1.0/once?cron-path=/").concat(process_id).concat(
        "~process@1.0/now",
    )
}

/// The address under which a process answers for an endpoint.
pub fn get_slot_url(base: &str, process_id: &str, endpoint: &str) -> (r: String)
    ensures
        r@ == process_address(base@, process_id@, endpoint@),
{
    String::from_str(base).concat("/").concat(process_id).concat("~process@1.0/").concat(endpoint)
}

/// The address of the computed slot of a process.
pub fn get_computed_slot_url(base: &str, process_id: &str) -> (r: String)
    ensures
        r@ == process_address(base@, process_id@, "compute/at-slot"@),
{
    get_slot_url(base, process_id, "compute/at-slot")
}

/// The address of the current slot of a process.
pub fn get_current_slot_url(base: &str, process_id: &str) -> (r: String)
    ensures
        r@ == process_address(base@, process_id@, "slot/current"@),
{
    get_slot_url(base, process_id, "slot/current")
}

/// The address of the reserves that the first source reports of a process.
pub fn hb_reserves_url(base: &str, process_id: &str) -> (r: String)
    ensures
        r@ == process_address(base@, process_id@, "now/reserves"@),
{
    get_slot_url(base, process_id, "now/reserves")
}

/// The address of the dry-run call that asks the second source.
pub fn ao_dry_run_url(cu_base: &str, process_id: &str) -> (r: String)
    ensures
        r@ == dry_run_address(cu_base@, process_id@),
{
    String::from_str(cu_base).concat("/dry-run?process-id=").concat(process_id)
}

/// The address of the cron listing.
pub fn cron_list_url(base: &str) -> (r: String)
    ensures
        r@ == cron_list_address(base@),
{
    String::from_str(base).concat("/~cron@1.0/list/serialize~json@1.0")
}

/// Whether a character is white space: the characters with the Unicode
/// property `White_Space`.
pub open spec fn is_space(c: char) -> bool {
    let u = c as u32;
    ||| 0x09 <= u <= 0x0d
    ||| u == 0x20
    ||| u == 0x85
    ||| u == 0xa0
    ||| u == 0x1680
    ||| 0x2000 <= u <= 0x200a
    ||| u == 0x2028
    ||| u == 0x2029
    ||| u == 0x202f
    ||| u == 0x205f
    ||| u == 0x3000
}

/// A text without the white space in front of it.
pub open spec fn trim_start(s: Seq<char>) -> Seq<char>
    decreases s.len(),
{
    if s.len() > 0 && is_space(s[0]) {
        trim_start(s.drop_first())
    } else {
        s
    }
}

/// A text without the white space behind it.
pub open spec fn trim_end(s: Seq<char>) -> Seq<char>
    decreases s.len(),
{
    if s.len() > 0 && is_space(s.last()) {
        trim_end(s.drop_last())
    } else {
        s
    }
}

/// Whether a character is one of the digits `0` to `9`.
pub open spec fn is_digit(c: char) -> bool {
    0x30 <= c as u32 <= 0x39
}

/// Whether a text consists of digits only.
pub open spec fn all_digits(s: Seq<char>) -> bool {
    forall|i: int| 0 <= i < s.len() ==> is_digit(#[trigger] s[i])
}

/// The number that a text of digits writes in base ten.
pub open spec fn digits_value(s: Seq<char>) -> nat
    decreases s.len(),
{
    if s.len() == 0 {
        0
    } else {
        digits_value(s.drop_last()) * 10 + (s.last() as u32 - 0x30) as nat
    }
}

/// The slot that the body of an answer reports: the body without the white
/// space around it must be a number in base ten, with `+` in front of it or
/// without, that fits 64 bits.
pub open spec fn slot_value(body: Seq<char>) -> Option<u64> {
    let text = trim_end(trim_start(body));
    let digits = if text.len() > 0 && text[0] == '+' {
        text.skip(1)
    } else {
        text
    };
    if digits.len() > 0 && all_digits(digits) && digits_value(digits) <= u64::MAX {
        Some(digits_value(digits) as u64)
    } else {
        None
    }
}

/// A number does not get smaller when digits are appended to its text.
proof fn lemma_digits_grow(s: Seq<char>, k: int)
    requires
        0 <= k <= s.len(),
    ensures
        digits_value(s.take(k)) <= digits_value(s),
    decreases s.len() - k,
{
    if k < s.len() {
        lemma_digits_grow(s.drop_last(), k);
        assert(s.drop_last().take(k) =~= s.take(k));
    } else {
        assert(s.take(k) =~= s);
    }
}

/// Whether a character is white space.
fn space(c: char) -> (r: bool)
    ensures
        r == is_space(c),
{
    let u = c as u32;
    (0x09 <= u && u <= 0x0d) || u == 0x20 || u == 0x85 || u == 0xa0 || u == 0x1680 || (0x2000 <= u
        && u <= 0x200a) || u == 0x2028 || u == 0x2029 || u == 0x202f || u == 0x205f || u == 0x3000
}

/// The characters of a text.
fn chars_of(text: &str) -> (r: Vec<char>)
    ensures
        r@ == text@,
{
    broadcast use vstd::string::group_string_axioms;

    let mut out: Vec<char> = Vec::new();
    let mut it = text.chars();
    loop
        invariant_except_break
            it.obeys_prophetic_iter_laws(),
            it.decrease() is Some,
            out@ + it.remaining() == text@,
        ensures
            out@ == text@,
        decreases it.decrease()->0,
    {
        match it.next() {
            Some(c) => {
                let ghost sofar = out@;
                let ghost rest = it.remaining();
                out.push(c);
                proof {
                    assert(out@ + rest =~= sofar + (seq![c] + rest));
                }
            },
            None => {
                proof {
                    assert(out@ + Seq::<char>::empty() =~= out@);
                }
                break ;
            },
        }
    }
    out
}

/// Reads the slot out of the body of an answer.
pub fn parse_slot_value(body: &str) -> (r: Option<u64>)
    ensures
        r == slot_value(body@),
{
    let chars = chars_of(body);
    let n = chars.len();
    let ghost s = chars@;
    let mut a: usize = 0;
    proof {
        assert(s.skip(0) =~= s);
    }
    while a < n && space(chars[a])
        invariant
            n == s.len(),
            s == chars@,
            a <= n,
            trim_start(s) == trim_start(s.skip(a as int)),
        decreases n - a,
    {
        proof {
            assert(s.skip(a as int).drop_first() =~= s.skip(a + 1));
        }
        a += 1;
    }
    let ghost front = s.skip(a as int);
    assert(trim_start(s) == front);
    let mut b: usize = n;
    proof {
        assert(s.subrange(a as int, n as int) =~= front);
    }
    while b > a && space(chars[b - 1])
        invariant
            n == s.len(),
            s == chars@,
            a <= b <= n,
            trim_end(front) == trim_end(s.subrange(a as int, b as int)),
        decreases b,
    {
        proof {
            assert(s.subrange(a as int, b as int).drop_last() =~= s.subrange(a as int, b - 1));
        }
        b -= 1;
    }
    let ghost text = s.subrange(a as int, b as int);
    assert(trim_end(front) == text);
    let mut k: usize = a;
    if k < b && chars[k] == '+' {
        k += 1;
    }
    let start = k;
    let ghost digits = s.subrange(start as int, b as int);
    proof {
        if text.len() > 0 && text[0] == '+' {
            assert(text.skip(1) =~= digits);
        } else {
            assert(text =~= digits);
        }
    }
    if k == b {
        return None;
    }
    let ghost goal = slot_value(body@);
    let mut value: u64 = 0;
    proof {
        assert(digits.take(0) =~= Seq::empty());
    }
    while k < b
        invariant
            n == s.len(),
            s == chars@,
            start <= k <= b <= n,
            start < b,
            digits == s.subrange(start as int, b as int),
            goal == (if all_digits(digits) && digits_value(digits) <= u64::MAX {
                Some(digits_value(digits) as u64)
            } else {
                None
            }),
            goal == slot_value(body@),
            all_digits(digits.take(k - start)),
            value == digits_value(digits.take(k - start)),
        decreases b - k,
    {
        let c = chars[k];
        let u = c as u32;
        proof {
            assert(digits[k - start] == c);
            assert(digits.take(k - start + 1).drop_last() =~= digits.take(k - start));
            assert(digits.take(k - start + 1).last() == c);
        }
        if u < 0x30 || u > 0x39 {
            assert(!is_digit(digits[k - start]));
            return None;
        }
        let d: u64 = (u - 0x30) as u64;
        if value > (u64::MAX - d) / 10 {
            proof {
                lemma_digits_grow(digits, k - start + 1);
            }
            return None;
        }
        value = value * 10 + d;
        k += 1;
    }
    proof {
        assert(digits.take(b - start) =~= digits);
    }
    Some(value)
}

} // verus!
