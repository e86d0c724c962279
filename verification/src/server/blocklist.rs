//! Domains that nobody may fetch from, as hosts files list them.

use vstd::hash_set::StringHashSet;
use vstd::prelude::*;
use vstd::utf8::encode_utf8;
use crate::number::{decimal, push_decimal};
use crate::text::{
    all_space, ascii_lower, begins, is_space, is_word, same, split, split_at_char, split_words, starts_with, to_ascii_lower, trim,
    trimmed, views, words,
};

verus! {

/// The most bytes of a hosts file.
pub const MAX_BLOCKLIST_BYTES: usize = 16777216;

/// The most bytes of a domain name.
pub const MAX_DOMAIN_LEN: usize = 253;

/// The domains that are blocked, in lower case.
pub struct DomainBlocklist {
    domains: StringHashSet,
}

impl View for DomainBlocklist {
    type V = Set<Seq<char>>;

    closed spec fn view(&self) -> Set<Seq<char>> {
        self.domains@
    }
}

/// A list that blocks nothing.
pub fn init_domain_blocklist() -> (r: DomainBlocklist)
    ensures
        r@ == Set::<Seq<char>>::empty(),
{
    DomainBlocklist { domains: StringHashSet::new() }
}

/// Tells whether a host is blocked, whatever the case of its letters.
pub fn is_domain_blocked(list: &DomainBlocklist, host: &str) -> (r: bool)
    ensures
        r == list@.contains(ascii_lower(host@)),
{
    list.domains.contains(to_ascii_lower(host).as_str())
}

/// A name for this machine, which hosts files list and which is not blocked.
pub open spec fn is_local_name(s: Seq<char>) -> bool {
    s == "localhost"@ || s == "localhost.localdomain"@ || s == "broadcasthost"@
}

/// The domain that a line of a hosts file blocks: the second word of a line
/// that is no comment, unless it is too long or a name for this machine.
pub open spec fn hosts_entry(line: Seq<char>) -> Option<Seq<char>> {
    let s = trim(line);
    let w = words(s);
    if s.len() == 0 || starts_with(s, "#"@) || w.len() < 2 {
        None
    } else if encode_utf8(w[1]).len() > MAX_DOMAIN_LEN || is_local_name(w[1]) {
        None
    } else {
        Some(ascii_lower(w[1]))
    }
}

/// The domains that a hosts file blocks.
pub open spec fn listed(lines: Seq<Seq<char>>) -> Set<Seq<char>>
    decreases lines.len(),
{
    if lines.len() == 0 {
        Set::<Seq<char>>::empty()
    } else {
        match hosts_entry(lines.last()) {
            Some(d) => listed(lines.drop_last()).insert(d),
            None => listed(lines.drop_last()),
        }
    }
}

/// The domains that some hosts files block together.
pub open spec fn listed_all(bodies: Seq<Seq<char>>) -> Set<Seq<char>>
    decreases bodies.len(),
{
    if bodies.len() == 0 {
        Set::<Seq<char>>::empty()
    } else {
        listed_all(bodies.drop_last()).union(listed(split(bodies.last(), '\n')))
    }
}

/// Reads a line of a hosts file.
pub fn read_hosts_entry(line: &str) -> (r: Option<String>)
    ensures
        crate::text::opt_view(r) == hosts_entry(line@),
{
    let s = trimmed(line);
    if s.as_str().is_empty() || begins(s.as_str(), "#") {
        return None;
    }
    let w = split_words(s.as_str());
    assert(views(w@).len() == w@.len());
    if w.len() < 2 {
        return None;
    }
    assert(views(w@)[1] == w@[1]@);
    if w[1].as_str().as_bytes().len() > MAX_DOMAIN_LEN || same(w[1].as_str(), "localhost") || same(
        w[1].as_str(),
        "localhost.localdomain",
    ) || same(w[1].as_str(), "broadcasthost") {
        return None;
    }
    Some(to_ascii_lower(w[1].as_str()))
}

/// Adds the domains of a hosts file.
fn add_hosts(list: &mut DomainBlocklist, body: &str)
    ensures
        final(list)@ == old(list)@.union(listed(split(body@, '\n'))),
{
    let lines = split_at_char(body, '\n');
    let ghost all = split(body@, '\n');
    let ghost start = list.domains@;
    assert(all.len() == lines@.len());
    assert(forall|k: int| 0 <= k < all.len() ==> all[k] == (#[trigger] lines@[k])@);
    let mut i: usize = 0;
    assert(start.union(listed(all.take(0))) =~= start);
    while i < lines.len()
        invariant
            i <= lines@.len(),
            all.len() == lines@.len(),
            forall|k: int| 0 <= k < all.len() ==> all[k] == (#[trigger] lines@[k])@,
            list.domains@ == start.union(listed(all.take(i as int))),
        decreases lines.len() - i,
    {
        assert(all.take(i + 1).drop_last() =~= all.take(i as int));
        assert(all.take(i + 1).last() == lines@[i as int]@);
        if let Some(d) = read_hosts_entry(lines[i].as_str()) {
            let ghost before = listed(all.take(i as int));
            list.domains.insert(d);
            assert(start.union(before).insert(d@) =~= start.union(before.insert(d@)));
        }
        i += 1;
    }
    assert(all.take(i as int) =~= all);
}

/// The text that a fetch gave; nothing where it failed.
pub open spec fn fetched_text(f: Result<String, String>) -> Seq<char> {
    match f {
        Ok(body) => body@,
        Err(_) => Seq::empty(),
    }
}

/// The texts that fetches gave.
pub open spec fn fetched_texts(fetched: Seq<Result<String, String>>) -> Seq<Seq<char>> {
    fetched.map_values(|f: Result<String, String>| fetched_text(f))
}

/// `i` is the first fetch that failed.
pub open spec fn first_failed(fetched: Seq<Result<String, String>>, i: int) -> bool {
    &&& 0 <= i < fetched.len()
    &&& fetched[i] is Err
    &&& forall|k: int| 0 <= k < i ==> (#[trigger] fetched[k]) is Ok
}

/// Replaces the list by what hosts files make together, given what fetching each
/// of them came to. Where one could not be fetched, the list stays as it is, and
/// the first such error comes back.
pub fn update_blocklist(list: &mut DomainBlocklist, fetched: &Vec<Result<String, String>>) -> (r:
    Result<(), String>)
    ensures
        match r {
            Ok(_) => {
                &&& forall|i: int| 0 <= i < fetched@.len() ==> (#[trigger] fetched@[i]) is Ok
                &&& final(list)@ == listed_all(fetched_texts(fetched@))
            },
            Err(e) => {
                &&& *final(list) == *old(list)
                &&& exists|i: int| #[trigger]
                    first_failed(fetched@, i) && fetched@[i]->Err_0@ == e@
            },
        },
{
    let ghost texts = fetched_texts(fetched@);
    let mut fresh = init_domain_blocklist();
    let mut i: usize = 0;
    assert(listed_all(texts.take(0)) =~= Set::<Seq<char>>::empty());
    while i < fetched.len()
        invariant
            i <= fetched@.len(),
            texts == fetched_texts(fetched@),
            *list == *old(list),
            forall|k: int| 0 <= k < i ==> (#[trigger] fetched@[k]) is Ok,
            fresh@ == listed_all(texts.take(i as int)),
        decreases fetched.len() - i,
    {
        match &fetched[i] {
            Ok(body) => {
                assert(texts.take(i + 1).drop_last() =~= texts.take(i as int));
                assert(texts.take(i + 1).last() == body@);
                add_hosts(&mut fresh, body.as_str());
            },
            Err(e) => {
                assert(first_failed(fetched@, i as int));
                return Err(e.clone());
            },
        }
        i += 1;
    }
    assert(texts.take(i as int) =~= texts);
    *list = fresh;
    Ok(())
}

impl DomainBlocklist {
    /// How many domains are blocked.
    pub fn count(&self) -> (r: usize)
        ensures
            r == self@.len(),
    {
        self.domains.len()
    }
}

/// The message for a hosts file that is announced as too large.
pub open spec fn announced_too_large(url: Seq<char>, len: nat) -> Seq<char> {
    "Blocklist "@ + url + " announced "@ + decimal(len) + " bytes, exceeds limit "@ + decimal(
        MAX_BLOCKLIST_BYTES as nat,
    )
}

/// Judges the announced length of a hosts file.
pub fn check_announced(url: &str, len: u64) -> (r: Result<(), String>)
    ensures
        match r {
            Ok(_) => len <= MAX_BLOCKLIST_BYTES,
            Err(e) => len > MAX_BLOCKLIST_BYTES && e@ == announced_too_large(url@, len as nat),
        },
{
    if len > MAX_BLOCKLIST_BYTES as u64 {
        let mut m = "Blocklist ".to_owned();
        m.append(url);
        m.append(" announced ");
        push_decimal(&mut m, len);
        m.append(" bytes, exceeds limit ");
        push_decimal(&mut m, MAX_BLOCKLIST_BYTES as u64);
        return Err(m);
    }
    Ok(())
}

/// Takes one more piece of a hosts file, unless that makes it too large.
pub fn take_chunk(url: &str, buf: &mut Vec<u8>, chunk: &[u8]) -> (r: Result<(), String>)
    ensures
        match r {
            Ok(_) => old(buf)@.len() + chunk@.len() <= MAX_BLOCKLIST_BYTES && final(buf)@
                == old(buf)@ + chunk@,
            Err(e) => old(buf)@.len() + chunk@.len() > MAX_BLOCKLIST_BYTES && final(buf)@
                == old(buf)@ && e@ == "Blocklist "@ + url@ + " exceeded maximum size "@ + decimal(
                MAX_BLOCKLIST_BYTES as nat,
            ) + " bytes"@,
        },
{
    if buf.len() > MAX_BLOCKLIST_BYTES || chunk.len() > MAX_BLOCKLIST_BYTES - buf.len() {
        let mut m = "Blocklist ".to_owned();
        m.append(url);
        m.append(" exceeded maximum size ");
        push_decimal(&mut m, MAX_BLOCKLIST_BYTES as u64);
        m.append(" bytes");
        return Err(m);
    }
    crate::bytes::append(buf, chunk);
    Ok(())
}

/// A domain is blocked exactly where some line of some hosts file lists it.
pub proof fn blocked_means_listed(lines: Seq<Seq<char>>, domain: Seq<char>)
    ensures
        listed(lines).contains(domain) <==> exists|i: int|
            0 <= i < lines.len() && hosts_entry(#[trigger] lines[i]) == Some(domain),
    decreases lines.len(),
{
    if lines.len() > 0 {
        let before = lines.drop_last();
        blocked_means_listed(before, domain);
        if exists|i: int| 0 <= i < lines.len() && hosts_entry(#[trigger] lines[i]) == Some(domain) {
            let i = choose|i: int|
                0 <= i < lines.len() && hosts_entry(#[trigger] lines[i]) == Some(domain);
            if i < before.len() {
                assert(before[i] == lines[i]);
            }
        }
        if listed(before).contains(domain) {
            let i = choose|i: int|
                0 <= i < before.len() && hosts_entry(#[trigger] before[i]) == Some(domain);
            assert(lines[i] == before[i]);
        }
        if hosts_entry(lines.last()) == Some(domain) {
            assert(lines[lines.len() - 1] == lines.last());
        }
    }
}

/// A line that names an address and then a domain blocks that domain, in lower
/// case, whatever the address is and whatever follows behind a space, unless the
/// name is too long or one for this machine.
pub proof fn second_words_are_blocked(
    lead: Seq<char>,
    address: Seq<char>,
    gap: Seq<char>,
    domain: Seq<char>,
    tail: Seq<char>,
)
    requires
        all_space(lead),
        is_word(address),
        address[0] != '#',
        all_space(gap),
        gap.len() > 0,
        is_word(domain),
        tail.len() == 0 || is_space(tail[0]),
        encode_utf8(domain).len() <= 253,
        domain != "localhost"@,
        domain != "localhost.localdomain"@,
        domain != "broadcasthost"@,
    ensures
        hosts_entry(lead + address + gap + domain + tail) == Some(ascii_lower(domain)),
{
    lemma_two_words(lead, address, gap, domain, tail);
}

/// A line whose second word is a name for this machine, or is too long, blocks
/// nothing.
pub proof fn local_names_are_not_blocked(
    lead: Seq<char>,
    address: Seq<char>,
    gap: Seq<char>,
    domain: Seq<char>,
    tail: Seq<char>,
)
    requires
        all_space(lead),
        is_word(address),
        all_space(gap),
        gap.len() > 0,
        is_word(domain),
        tail.len() == 0 || is_space(tail[0]),
        domain == "localhost"@ || domain == "localhost.localdomain"@ || domain == "broadcasthost"@
            || encode_utf8(domain).len() > 253,
    ensures
        hosts_entry(lead + address + gap + domain + tail) is None,
{
    lemma_two_words(lead, address, gap, domain, tail);
}

/// A line that is blank, a comment, or a single word blocks nothing.
pub proof fn comments_block_nothing(lead: Seq<char>, word: Seq<char>, tail: Seq<char>)
    requires
        all_space(lead),
        is_word(word),
    ensures
        hosts_entry(lead) is None,
        word[0] == '#' ==> hosts_entry(lead + word + tail) is None,
        all_space(tail) ==> hosts_entry(lead + word + tail) is None,
{
    crate::text::lemma_words_of_space(lead);
    crate::text::lemma_words_of_trimmed(lead);
    let line = lead + word + tail;
    assert(line =~= lead + (word + tail));
    assert((word + tail)[0] == word[0]);
    crate::text::lemma_trim_lead(lead, word + tail);
    crate::text::lemma_trim_end_first(word + tail);
    reveal_strlit("#");
    if word[0] == '#' {
        assert(trim(line).take(1) =~= "#"@);
    }
    if all_space(tail) {
        crate::text::words_come_out_in_order(lead, word, tail, Seq::empty());
        assert(lead + word + tail + Seq::<char>::empty() =~= line);
        crate::text::lemma_words_of_trimmed(line);
    }
}

proof fn lemma_two_words(
    lead: Seq<char>,
    address: Seq<char>,
    gap: Seq<char>,
    domain: Seq<char>,
    tail: Seq<char>,
)
    requires
        all_space(lead),
        is_word(address),
        all_space(gap),
        gap.len() > 0,
        is_word(domain),
        tail.len() == 0 || is_space(tail[0]),
    ensures
        ({
            let s = trim(lead + address + gap + domain + tail);
            &&& s.len() > 0
            &&& s[0] == address[0]
            &&& starts_with(s, "#"@) == (address[0] == '#')
            &&& words(s).len() >= 2
            &&& words(s)[1] == domain
        }),
{
    let line = lead + address + gap + domain + tail;
    let rest = domain + tail;
    assert(line =~= lead + address + gap + rest);
    crate::text::words_come_out_in_order(lead, address, gap, rest);
    crate::text::lemma_words_of_word(domain);
    crate::text::lemma_words_join(domain, tail);
    crate::text::lemma_words_of_trimmed(line);
    assert(line =~= lead + (address + gap + rest));
    assert((address + gap + rest)[0] == address[0]);
    crate::text::lemma_trim_lead(lead, address + gap + rest);
    crate::text::lemma_trim_end_first(address + gap + rest);
    reveal_strlit("#");
    let s = trim(line);
    assert(s.take(1) =~= seq![s[0]]);
    assert("#"@ =~= seq!['#']);
    if starts_with(s, "#"@) {
        assert(s.take(1)[0] == '#');
    }
}

/// Files count together: a domain is blocked exactly where one of them lists it.
pub proof fn every_file_counts(bodies: Seq<Seq<char>>, domain: Seq<char>)
    ensures
        listed_all(bodies).contains(domain) <==> exists|i: int|
            0 <= i < bodies.len() && listed(split(#[trigger] bodies[i], '\n')).contains(domain),
    decreases bodies.len(),
{
    if bodies.len() > 0 {
        let before = bodies.drop_last();
        every_file_counts(before, domain);
        if exists|i: int|
            0 <= i < bodies.len() && listed(split(#[trigger] bodies[i], '\n')).contains(domain) {
            let i = choose|i: int|
                0 <= i < bodies.len() && listed(split(#[trigger] bodies[i], '\n')).contains(domain);
            if i < before.len() {
                assert(before[i] == bodies[i]);
            }
        }
        if listed_all(before).contains(domain) {
            let i = choose|i: int|
                0 <= i < before.len() && listed(split(#[trigger] before[i], '\n')).contains(domain);
            assert(bodies[i] == before[i]);
        }
        if listed(split(bodies.last(), '\n')).contains(domain) {
            assert(bodies[bodies.len() - 1] == bodies.last());
        }
    }
}

/// What was fetched is what counts, file by file; of files that could not be
/// fetched the first is the one that is told.
pub proof fn fetched_files_keep_their_texts(
    fetched: Seq<Result<String, String>>,
    i: int,
    body: String,
)
    requires
        0 <= i < fetched.len(),
    ensures
        fetched_texts(fetched).len() == fetched.len(),
        fetched[i] == Ok::<String, String>(body) ==> fetched_texts(fetched)[i] == body@,
        fetched[i] is Err && (forall|k: int| 0 <= k < i ==> (#[trigger] fetched[k]) is Ok)
            ==> first_failed(fetched, i) && forall|j: int| #[trigger]
            first_failed(fetched, j) ==> j == i,
{
    if fetched[i] is Err && (forall|k: int| 0 <= k < i ==> (#[trigger] fetched[k]) is Ok) {
        assert forall|j: int| #[trigger] first_failed(fetched, j) implies j == i by {
            if j < i {
                assert(fetched[j] is Ok);
            } else if i < j {
                assert(fetched[i] is Ok);
            }
        }
    }
}

/// A hosts file has at most sixteen mebibytes, a name at most 253 bytes.
pub proof fn hosts_files_have_these_limits(url: Seq<char>, len: nat)
    ensures
        MAX_BLOCKLIST_BYTES == 16 * 1024 * 1024,
        MAX_DOMAIN_LEN == 253,
        announced_too_large(url, len) == "Blocklist "@ + url + " announced "@ + decimal(len)
            + " bytes, exceeds limit "@ + decimal(16777216),
{
}

} // verus!
