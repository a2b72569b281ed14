//! The rendezvous server's rules: which device IDs it accepts, how it reads
//! a request line, and its registry of device endpoints, whose entries
//! expire when a device stops sending heartbeats.

use crate::text::{is_unicode_whitespace, is_whitespace_char, same_text};
use vstd::prelude::*;
use vstd::string::{StrSliceExecFns, StringExecFns};
use crate::crypto::encryption::{hex_digit_value, lemma_hex_digits};
use crate::text::hex_lower;
use vstd::utf8::{encode_utf8, is_ascii_chars_encode_utf8};

verus! {

/// The length of a device ID in hexadecimal digits.
pub const DEVICE_ID_HEX_LEN: usize = 32;

/// How long a registration stays valid without a heartbeat, in milliseconds.
pub const REGISTRATION_TTL_MS: u64 = 60_000;

pub open spec fn is_hex_digit_byte(b: u8) -> bool {
    (48 <= b <= 57) || (97 <= b <= 102) || (65 <= b <= 70)
}

/// A device ID is exactly 32 bytes, all ASCII hexadecimal digits.
pub open spec fn valid_device_id_spec(id: Seq<char>) -> bool {
    let b = encode_utf8(id);
    b.len() == DEVICE_ID_HEX_LEN && forall|i: int| 0 <= i < b.len() ==> is_hex_digit_byte(
        #[trigger] b[i],
    )
}

/// Thirty-two ASCII hexadecimal digits make a device ID.
proof fn lemma_hex_text_is_device_id(id: Seq<char>)
    requires
        id.len() == 32,
        forall|i: int|
            0 <= i < 32 ==> '\0' <= #[trigger] id[i] <= '\u{7f}' && hex_digit_value(id[i] as u8) is Some,
    ensures
        valid_device_id_spec(id),
{
    is_ascii_chars_encode_utf8(id);
    let b = encode_utf8(id);
    assert forall|i: int| 0 <= i < b.len() implies is_hex_digit_byte(#[trigger] b[i]) by {
        assert(b[i] == id[i] as u8);
        lemma_hex_digits(0, b[i]);
    }
}

/// A device ID is 32 hexadecimal digits, in either case; in particular the
/// lower-case rendering of a 16-byte device ID, which a device prints and
/// registers, is valid.
pub proof fn lemma_valid_device_ids(id: Seq<char>, raw: Seq<u8>)
    ensures
        (id.len() == 32 && forall|i: int|
            0 <= i < 32 ==> '\0' <= #[trigger] id[i] <= '\u{7f}' && hex_digit_value(id[i] as u8) is Some)
            ==> valid_device_id_spec(id),
        valid_device_id_spec(id) ==> encode_utf8(id).len() == 32 && forall|i: int|
            0 <= i < 32 ==> hex_digit_value(#[trigger] encode_utf8(id)[i]) is Some,
        raw.len() == 16 ==> valid_device_id_spec(hex_lower(raw)),
{
    if id.len() == 32 && forall|i: int|
        0 <= i < 32 ==> '\0' <= #[trigger] id[i] <= '\u{7f}' && hex_digit_value(id[i] as u8) is Some {
        lemma_hex_text_is_device_id(id);
    }
    if valid_device_id_spec(id) {
        let b = encode_utf8(id);
        assert forall|i: int| 0 <= i < 32 implies hex_digit_value(#[trigger] b[i]) is Some by {
            lemma_hex_digits(0, b[i]);
        }
    }
    if raw.len() == 16 {
        let s = hex_lower(raw);
        assert forall|i: int| 0 <= i < 32 implies '\0' <= #[trigger] s[i] <= '\u{7f}' && hex_digit_value(
            s[i] as u8,
        ) is Some by {
            let v: u8 = if i % 2 == 0 {
                raw[i / 2] / 16
            } else {
                raw[i / 2] % 16
            };
            assert(s[i] == crate::text::hex_digit_char(v));
            lemma_hex_digits(v, 0);
        }
        lemma_hex_text_is_device_id(s);
    }
}

pub fn valid_device_id(device_id: &str) -> (r: bool)
    ensures
        r == valid_device_id_spec(device_id@),
{
    let b = device_id.as_bytes();
    if b.len() != DEVICE_ID_HEX_LEN {
        return false;
    }
    let mut i: usize = 0;
    while i < b.len()
        invariant
            i <= b@.len(),
            b@ == encode_utf8(device_id@),
            b@.len() == DEVICE_ID_HEX_LEN,
            forall|j: int| 0 <= j < i ==> is_hex_digit_byte(#[trigger] b@[j]),
        decreases b@.len() - i,
    {
        let c = b[i];
        if !((48 <= c && c <= 57) || (97 <= c && c <= 102) || (65 <= c && c <= 70)) {
            assert(!is_hex_digit_byte(b@[i as int]));
            return false;
        }
        i = i + 1;
    }
    true
}

/// `acc` with the word `cur` added when it is not empty.
pub open spec fn flush(acc: Seq<Seq<char>>, cur: Seq<char>) -> Seq<Seq<char>> {
    if cur.len() > 0 {
        acc.push(cur)
    } else {
        acc
    }
}

/// The words of `rest`, after the words `acc` and the started word `cur`.
pub open spec fn split_from(rest: Seq<char>, cur: Seq<char>, acc: Seq<Seq<char>>) -> Seq<
    Seq<char>,
>
    decreases rest.len(),
{
    if rest.len() == 0 {
        flush(acc, cur)
    } else if is_unicode_whitespace(rest[0]) {
        split_from(rest.drop_first(), Seq::empty(), flush(acc, cur))
    } else {
        split_from(rest.drop_first(), cur.push(rest[0]), acc)
    }
}

/// The maximal runs of non-whitespace characters of `s`, in order, as
/// `str::split_whitespace` of std yields them.
pub open spec fn split_whitespace_spec(s: Seq<char>) -> Seq<Seq<char>> {
    split_from(s, Seq::empty(), Seq::empty())
}

/// The views of a list of texts.
pub open spec fn texts(v: Seq<String>) -> Seq<Seq<char>> {
    v.map_values(|t: String| t@)
}

/// Splits a line into its whitespace-separated words.
pub fn split_words(line: &str) -> (words: Vec<String>)
    ensures
        texts(words@) == split_whitespace_spec(line@),
{
    let n = line.unicode_len();
    let mut words: Vec<String> = Vec::new();
    let mut start: usize = 0;
    let mut in_word = false;
    let mut i: usize = 0;
    assert(line@.skip(0) =~= line@);
    assert(line@.subrange(0, 0) =~= Seq::<char>::empty());
    assert(texts(words@) =~= Seq::<Seq<char>>::empty());
    while i < n
        invariant
            i <= n,
            n == line@.len(),
            start <= i,
            !in_word ==> start == i,
            in_word ==> start < i,
            split_whitespace_spec(line@) == split_from(
                line@.skip(i as int),
                line@.subrange(start as int, i as int),
                texts(words@),
            ),
            forall|j: int| start <= j < i ==> !is_unicode_whitespace(#[trigger] line@[j]),
        decreases n - i,
    {
        let c = line.get_char(i);
        let ghost rest = line@.skip(i as int);
        assert(rest[0] == c);
        assert(rest.drop_first() =~= line@.skip(i + 1));
        if is_whitespace_char(c) {
            if in_word {
                let w = line.substring_char(start, i).to_string();
                let ghost before = words@;
                words.push(w);
                assert(texts(words@) =~= texts(before).push(w@));
            }
            proof {
                if !in_word {
                    assert(line@.subrange(start as int, i as int) =~= Seq::<char>::empty());
                }
                assert(line@.subrange(i + 1, i + 1) =~= Seq::<char>::empty());
            }
            in_word = false;
            start = i + 1;
        } else {
            if !in_word {
                in_word = true;
                start = i;
            }
            assert(line@.subrange(start as int, i as int).push(c) =~= line@.subrange(
                start as int,
                i + 1,
            ));
        }
        i = i + 1;
    }
    assert(line@.skip(n as int) =~= Seq::<char>::empty());
    if in_word {
        let w = line.substring_char(start, n).to_string();
        let ghost before = words@;
        words.push(w);
        assert(texts(words@) =~= texts(before).push(w@));
    } else {
        assert(line@.subrange(start as int, n as int) =~= Seq::<char>::empty());
    }
    words
}

/// A request to the rendezvous server.
pub enum Command {
    Register { device_id: String, endpoint: String },
    Heartbeat { device_id: String },
    Lookup { device_id: String },
    Ping,
    Invalid,
    /// A line with no words, which gets no answer.
    Blank,
}

/// The request a line of words makes.
pub open spec fn command_kind(words: Seq<Seq<char>>) -> int {
    if words.len() == 0 {
        0
    } else if words[0] == "REGISTER"@ && words.len() == 3 {
        1
    } else if words[0] == "HEARTBEAT"@ && words.len() == 2 {
        2
    } else if words[0] == "LOOKUP"@ && words.len() == 2 {
        3
    } else if words[0] == "PING"@ {
        4
    } else {
        5
    }
}

/// Reads a request line.
pub fn parse_command(line: &str) -> (c: Command)
    ensures
        ({
            let w = split_whitespace_spec(line@);
            &&& command_kind(w) == 0 ==> c is Blank
            &&& command_kind(w) == 1 ==> (c matches Command::Register { device_id, endpoint }
                && device_id@ == w[1] && endpoint@ == w[2])
            &&& command_kind(w) == 2 ==> (c matches Command::Heartbeat { device_id } && device_id@
                == w[1])
            &&& command_kind(w) == 3 ==> (c matches Command::Lookup { device_id } && device_id@
                == w[1])
            &&& command_kind(w) == 4 ==> c is Ping
            &&& command_kind(w) == 5 ==> c is Invalid
        }),
{
    let words = split_words(line);
    let ghost w = split_whitespace_spec(line@);
    assert(words@.len() == w.len());
    if words.len() == 0 {
        return Command::Blank;
    }
    assert(words@[0]@ == w[0]);
    let first = words[0].as_str();
    if same_text(first, "REGISTER") && words.len() == 3 {
        assert(words@[1]@ == w[1] && words@[2]@ == w[2]);
        return Command::Register { device_id: words[1].clone(), endpoint: words[2].clone() };
    }
    if same_text(first, "HEARTBEAT") && words.len() == 2 {
        assert(words@[1]@ == w[1]);
        return Command::Heartbeat { device_id: words[1].clone() };
    }
    if same_text(first, "LOOKUP") && words.len() == 2 {
        assert(words@[1]@ == w[1]);
        return Command::Lookup { device_id: words[1].clone() };
    }
    if same_text(first, "PING") {
        return Command::Ping;
    }
    Command::Invalid
}

/// One registered device.
pub struct Registration {
    pub device_id: String,
    pub endpoint: String,
    pub last_seen: u64,
}

/// Whether a registration seen at `last_seen` is still valid at `now`;
/// time never runs backwards, so an earlier `now` counts as no time passed.
pub open spec fn is_fresh(last_seen: u64, now: u64, ttl: u64) -> bool {
    (if now >= last_seen {
        now - last_seen
    } else {
        0
    }) < ttl
}

/// A registration stays valid for less than `ttl` after it was last seen:
/// it is valid while fewer than `ttl` milliseconds have passed, and no
/// longer once `ttl` have; a clock reading before it counts as no time.
pub proof fn lemma_freshness(last_seen: u64, now: u64, ttl: u64)
    ensures
        now >= last_seen ==> (is_fresh(last_seen, now, ttl) <==> now < last_seen + ttl),
        now < last_seen ==> (is_fresh(last_seen, now, ttl) <==> ttl > 0),
        REGISTRATION_TTL_MS == 60_000,
{
}

/// The list holds each device once, and exactly the entries of `m`.
pub open spec fn entries_match(es: Seq<Registration>, m: Map<Seq<char>, (Seq<char>, u64)>) -> bool {
    &&& forall|i: int, j: int|
        0 <= i < j < es.len() ==> (#[trigger] es[i]).device_id@ != (#[trigger] es[j]).device_id@
    &&& forall|i: int|
        0 <= i < es.len() ==> m.contains_key((#[trigger] es[i]).device_id@) && m[es[i].device_id@]
            == (es[i].endpoint@, es[i].last_seen)
    &&& forall|k: Seq<char>|
        #[trigger] m.contains_key(k) ==> exists|i: int|
            0 <= i < es.len() && (#[trigger] es[i]).device_id@ == k
}

/// Removing an entry from the list and its key from the map keeps them matched.
proof fn lemma_entries_remove(es: Seq<Registration>, i: int, m: Map<Seq<char>, (Seq<char>, u64)>)
    requires
        entries_match(es, m),
        0 <= i < es.len(),
    ensures
        entries_match(es.remove(i), m.remove(es[i].device_id@)),
{
    let r = es.remove(i);
    let key = es[i].device_id@;
    let m2 = m.remove(key);
    assert forall|a: int, b: int| 0 <= a < b < r.len() implies (#[trigger] r[a]).device_id@
        != (#[trigger] r[b]).device_id@ by {
        let a0 = if a < i { a } else { a + 1 };
        let b0 = if b < i { b } else { b + 1 };
        assert(r[a] == es[a0] && r[b] == es[b0]);
    }
    assert forall|a: int| 0 <= a < r.len() implies m2.contains_key((#[trigger] r[a]).device_id@)
        && m2[r[a].device_id@] == (r[a].endpoint@, r[a].last_seen) by {
        let a0 = if a < i { a } else { a + 1 };
        assert(r[a] == es[a0]);
        assert(es[a0].device_id@ != key);
    }
    assert forall|k: Seq<char>| #[trigger] m2.contains_key(k) implies exists|a: int|
        0 <= a < r.len() && (#[trigger] r[a]).device_id@ == k by {
        let j = choose|j: int| 0 <= j < es.len() && (#[trigger] es[j]).device_id@ == k;
        assert(j != i);
        let a = if j < i { j } else { j - 1 };
        assert(r[a] == es[j]);
    }
}

/// The registered devices: each device ID at most once.
pub struct Registry {
    entries: Vec<Registration>,
    map: Ghost<Map<Seq<char>, (Seq<char>, u64)>>,
}

impl Registry {
    /// The registrations, by device ID: endpoint and time last seen.
    pub closed spec fn view_map(self) -> Map<Seq<char>, (Seq<char>, u64)> {
        self.map@
    }

    /// The list holds each device once, and exactly the map's entries; every
    /// registered device ID is valid.
    pub closed spec fn wf(self) -> bool {
        &&& entries_match(self.entries@, self.map@)
        &&& forall|k: Seq<char>| #[trigger] self.map@.contains_key(k) ==> valid_device_id_spec(k)
    }

    /// Only valid device IDs are ever registered.
    pub proof fn lemma_registered_ids_valid(&self)
        requires
            self.wf(),
        ensures
            forall|k: Seq<char>|
                #[trigger] self.view_map().contains_key(k) ==> valid_device_id_spec(k),
    {
    }

    pub fn new() -> (r: Self)
        ensures
            r.wf(),
            r.view_map() == Map::<Seq<char>, (Seq<char>, u64)>::empty(),
    {
        Registry { entries: Vec::new(), map: Ghost(Map::empty()) }
    }

    /// The index of a device's entry, if it is registered.
    fn find(&self, device_id: &str) -> (r: Option<usize>)
        requires
            self.wf(),
        ensures
            r matches Some(i) ==> i < self.entries@.len() && self.entries@[i as int].device_id@
                == device_id@,
            r is None <==> !self.view_map().contains_key(device_id@),
    {
        let mut i: usize = 0;
        while i < self.entries.len()
            invariant
                self.wf(),
                i <= self.entries@.len(),
                forall|j: int| 0 <= j < i ==> (#[trigger] self.entries@[j]).device_id@ != device_id@,
            decreases self.entries@.len() - i,
        {
            if same_text(self.entries[i].device_id.as_str(), device_id) {
                return Some(i);
            }
            i = i + 1;
        }
        proof {
            if self.map@.contains_key(device_id@) {
                let j = choose|j: int|
                    0 <= j < self.entries@.len() && (#[trigger] self.entries@[j]).device_id@
                        == device_id@;
                assert(self.entries@[j].device_id@ != device_id@);
            }
        }
        None
    }

    /// `REGISTER`: a valid device ID is (re)registered at `endpoint`, seen now.
    pub fn register(&mut self, device_id: &str, endpoint: &str, now: u64) -> (reply: &'static str)
        requires
            old(self).wf(),
        ensures
            final(self).wf(),
            valid_device_id_spec(device_id@) ==> reply@ == "OK registered\n"@
                && final(self).view_map() == old(self).view_map().insert(
                device_id@,
                (endpoint@, now),
            ),
            !valid_device_id_spec(device_id@) ==> reply@ == "ERROR invalid-device-id\n"@
                && final(self).view_map() == old(self).view_map(),
    {
        if !valid_device_id(device_id) {
            return "ERROR invalid-device-id\n";
        }
        let entry = Registration {
            device_id: device_id.to_string(),
            endpoint: endpoint.to_string(),
            last_seen: now,
        };
        let ghost new_map = self.map@.insert(device_id@, (endpoint@, now));
        match self.find(device_id) {
            Some(i) => {
                let ghost old_entries = self.entries@;
                self.entries.set(i, entry);
                self.map = Ghost(new_map);
                assert forall|k: Seq<char>| #[trigger] self.map@.contains_key(k) implies exists|
                    j: int,
                |
                    0 <= j < self.entries@.len() && (#[trigger] self.entries@[j]).device_id@ == k by {
                    if k != device_id@ {
                        let j = choose|j: int|
                            0 <= j < old_entries.len() && (#[trigger] old_entries[j]).device_id@
                                == k;
                        assert(self.entries@[j] == old_entries[j]);
                    } else {
                        assert(self.entries@[i as int].device_id@ == k);
                    }
                }
            },
            None => {
                let ghost old_entries = self.entries@;
                self.entries.push(entry);
                self.map = Ghost(new_map);
                assert forall|k: Seq<char>| #[trigger] self.map@.contains_key(k) implies exists|
                    j: int,
                |
                    0 <= j < self.entries@.len() && (#[trigger] self.entries@[j]).device_id@ == k by {
                    if k != device_id@ {
                        let j = choose|j: int|
                            0 <= j < old_entries.len() && (#[trigger] old_entries[j]).device_id@
                                == k;
                        assert(self.entries@[j] == old_entries[j]);
                    } else {
                        assert(self.entries@[old_entries.len() as int].device_id@ == k);
                    }
                }
            },
        }
        "OK registered\n"
    }

    /// `HEARTBEAT`: a registered device is marked seen now.
    pub fn heartbeat(&mut self, device_id: &str, now: u64) -> (reply: &'static str)
        requires
            old(self).wf(),
        ensures
            final(self).wf(),
            old(self).view_map().contains_key(device_id@) ==> reply@ == "OK heartbeat\n"@
                && final(self).view_map() == old(self).view_map().insert(
                device_id@,
                (old(self).view_map()[device_id@].0, now),
            ),
            !old(self).view_map().contains_key(device_id@) ==> reply@
                == "ERROR not-registered\n"@ && final(self).view_map() == old(self).view_map(),
            !valid_device_id_spec(device_id@) ==> reply@ == "ERROR not-registered\n"@
                && final(self).view_map() == old(self).view_map(),
    {
        match self.find(device_id) {
            Some(i) => {
                let ghost old_entries = self.entries@;
                let entry = Registration {
                    device_id: self.entries[i].device_id.clone(),
                    endpoint: self.entries[i].endpoint.clone(),
                    last_seen: now,
                };
                let ghost new_map = self.map@.insert(
                    device_id@,
                    (self.map@[device_id@].0, now),
                );
                self.entries.set(i, entry);
                self.map = Ghost(new_map);
                assert forall|k: Seq<char>| #[trigger] self.map@.contains_key(k) implies exists|
                    j: int,
                |
                    0 <= j < self.entries@.len() && (#[trigger] self.entries@[j]).device_id@ == k by {
                    let j = choose|j: int|
                        0 <= j < old_entries.len() && (#[trigger] old_entries[j]).device_id@ == k;
                    assert(self.entries@[j].device_id@ == old_entries[j].device_id@);
                }
                "OK heartbeat\n"
            },
            None => "ERROR not-registered\n",
        }
    }

    /// `LOOKUP`: the endpoint of a device registered and seen within `ttl`.
    pub fn lookup(&self, device_id: &str, now: u64, ttl: u64) -> (reply: String)
        requires
            self.wf(),
        ensures
            self.view_map().contains_key(device_id@) && is_fresh(
                self.view_map()[device_id@].1,
                now,
                ttl,
            ) ==> reply@ == "FOUND "@ + self.view_map()[device_id@].0 + "\n"@,
            !(self.view_map().contains_key(device_id@) && is_fresh(
                self.view_map()[device_id@].1,
                now,
                ttl,
            )) ==> reply@ == "NOT_FOUND\n"@,
            !valid_device_id_spec(device_id@) ==> reply@ == "NOT_FOUND\n"@,
    {
        match self.find(device_id) {
            Some(i) => {
                let seen = self.entries[i].last_seen;
                let elapsed = if now >= seen {
                    now - seen
                } else {
                    0
                };
                if elapsed < ttl {
                    "FOUND ".to_string().concat(self.entries[i].endpoint.as_str()).concat("\n")
                } else {
                    "NOT_FOUND\n".to_string()
                }
            },
            None => "NOT_FOUND\n".to_string(),
        }
    }

    /// Drops the registrations not seen within `ttl`.
    pub fn expire(&mut self, now: u64, ttl: u64)
        requires
            old(self).wf(),
        ensures
            final(self).wf(),
            forall|k: Seq<char>|
                #[trigger] final(self).view_map().contains_key(k) <==> old(
                    self,
                ).view_map().contains_key(k) && is_fresh(old(self).view_map()[k].1, now, ttl),
            forall|k: Seq<char>|
                #[trigger] final(self).view_map().contains_key(k) ==> final(self).view_map()[k]
                    == old(self).view_map()[k],
    {
        let ghost old_map = self.map@;
        let mut i: usize = 0;
        while i < self.entries.len()
            invariant
                self.wf(),
                i <= self.entries@.len(),
                forall|k: Seq<char>|
                    #[trigger] self.map@.contains_key(k) ==> old_map.contains_key(k)
                        && self.map@[k] == old_map[k],
                forall|k: Seq<char>|
                    #[trigger] old_map.contains_key(k) && is_fresh(old_map[k].1, now, ttl)
                        ==> self.map@.contains_key(k),
                forall|j: int|
                    0 <= j < i ==> is_fresh((#[trigger] self.entries@[j]).last_seen, now, ttl),
            decreases self.entries@.len() - i,
        {
            let seen = self.entries[i].last_seen;
            let elapsed = if now >= seen {
                now - seen
            } else {
                0
            };
            if elapsed < ttl {
                i = i + 1;
            } else {
                let ghost key = self.entries@[i as int].device_id@;
                let ghost before = self.entries@;
                proof {
                    lemma_entries_remove(self.entries@, i as int, self.map@);
                }
                let _removed = self.entries.remove(i);
                self.map = Ghost(self.map@.remove(key));
                assert forall|j: int| 0 <= j < i implies is_fresh(
                    (#[trigger] self.entries@[j]).last_seen,
                    now,
                    ttl,
                ) by {
                    assert(self.entries@[j] == before[j]);
                }
            }
        }
        assert forall|k: Seq<char>| #[trigger] self.map@.contains_key(k) implies is_fresh(
            self.map@[k].1,
            now,
            ttl,
        ) by {
            let j = choose|j: int|
                0 <= j < self.entries@.len() && (#[trigger] self.entries@[j]).device_id@ == k;
            assert(is_fresh(self.entries@[j].last_seen, now, ttl));
        }
    }

    /// The answer to a request, if it gets one. Registering needs an
    /// endpoint that the caller has already read as an address.
    pub fn respond(&mut self, command: &Command, now: u64) -> (reply: Option<String>)
        requires
            old(self).wf(),
        ensures
            final(self).wf(),
            command is Blank ==> reply is None && final(self).view_map() == old(self).view_map(),
            command is Ping ==> (reply matches Some(r) && r@ == "PONG\n"@) && final(self).view_map()
                == old(self).view_map(),
            command is Invalid ==> (reply matches Some(r) && r@ == "ERROR invalid-command\n"@)
                && final(self).view_map() == old(self).view_map(),
            command matches Command::Register { device_id, endpoint } ==> (valid_device_id_spec(
                device_id@,
            ) ==> final(self).view_map() == old(self).view_map().insert(
                device_id@,
                (endpoint@, now),
            ) && (reply matches Some(r) && r@ == "OK registered\n"@)),
            command matches Command::Register { device_id, endpoint } ==> (!valid_device_id_spec(
                device_id@,
            ) ==> final(self).view_map() == old(self).view_map() && (reply matches Some(r) && r@
                == "ERROR invalid-device-id\n"@)),
            command matches Command::Lookup { device_id } ==> final(self).view_map() == old(
                self,
            ).view_map() && (reply matches Some(r) && (if old(self).view_map().contains_key(
                device_id@,
            ) && is_fresh(old(self).view_map()[device_id@].1, now, REGISTRATION_TTL_MS) {
                r@ == "FOUND "@ + old(self).view_map()[device_id@].0 + "\n"@
            } else {
                r@ == "NOT_FOUND\n"@
            })),
            command matches Command::Lookup { device_id } ==> (!valid_device_id_spec(device_id@)
                ==> (reply matches Some(r) && r@ == "NOT_FOUND\n"@)),
            command matches Command::Heartbeat { device_id } ==> (reply matches Some(r) && (if old(
                self,
            ).view_map().contains_key(device_id@) {
                r@ == "OK heartbeat\n"@ && final(self).view_map() == old(self).view_map().insert(
                    device_id@,
                    (old(self).view_map()[device_id@].0, now),
                )
            } else {
                r@ == "ERROR not-registered\n"@ && final(self).view_map() == old(self).view_map()
            })),
    {
        match command {
            Command::Blank => None,
            Command::Ping => Some("PONG\n".to_string()),
            Command::Invalid => Some("ERROR invalid-command\n".to_string()),
            Command::Register { device_id, endpoint } => Some(
                self.register(device_id.as_str(), endpoint.as_str(), now).to_string(),
            ),
            Command::Heartbeat { device_id } => Some(
                self.heartbeat(device_id.as_str(), now).to_string(),
            ),
            Command::Lookup { device_id } => Some(
                self.lookup(device_id.as_str(), now, REGISTRATION_TTL_MS),
            ),
        }
    }
}

/// A device found right after it registers is found at the endpoint it
/// registered.
pub proof fn lemma_lookup_after_register(
    m: Map<Seq<char>, (Seq<char>, u64)>,
    device_id: Seq<char>,
    endpoint: Seq<char>,
    now: u64,
)
    ensures
        m.insert(device_id, (endpoint, now)).contains_key(device_id),
        is_fresh(m.insert(device_id, (endpoint, now))[device_id].1, now, REGISTRATION_TTL_MS),
        m.insert(device_id, (endpoint, now))[device_id].0 == endpoint,
{
}

} // verus!
