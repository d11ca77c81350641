//! Releases of Firefox: which of the names on the release page are versions,
//! which of them a request selects, and where the archive lies inside a
//! downloaded installer.

use vstd::prelude::*;
use vstd::seq_lib::{to_multiset_build, to_multiset_insert};
use vstd::string::*;
use bytes::Bytes;
use select::document::Document;
use select::predicate::{Name, Predicate};
use crate::text::{is_digit, names, parse_decimal, parse_unsigned, split, split_on, starts_with, to_chars, trim_end, trimmed};
use crate::utils::{find_sequence, first_occurrence, occurs_at};

verus! {

/// Whether `version` begins like a version: `.` splits it into two segments
/// or more, and each of the first two reads as an unsigned 32-bit number.
pub open spec fn valid_version(version: Seq<char>) -> bool {
    let parts = split_on(version, '.');
    &&& parts.len() >= 2
    &&& parse_unsigned(parts[0], u32::MAX as nat) is Some
    &&& parse_unsigned(parts[1], u32::MAX as nat) is Some
}

/// Whether `version` begins like a version: a number, a dot and a number.
pub fn is_valid_version(version: &str) -> (valid: bool)
    ensures
        valid == valid_version(version@),
{
    let chars = to_chars(version);
    let parts = split(&chars, '.');
    if parts.len() < 2 {
        return false;
    }
    parse_decimal(&parts[0], u32::MAX as u64).is_some() && parse_decimal(
        &parts[1],
        u32::MAX as u64,
    ).is_some()
}

/// The name of a release as the release page links to it: the text of the
/// link without the slashes at its end.
pub open spec fn link_name() -> spec_fn(Seq<char>) -> Seq<char> {
    |text: Seq<char>| trimmed(text, '/')
}

/// The names that begin like a version.
pub open spec fn version_like() -> spec_fn(Seq<char>) -> bool {
    |name: Seq<char>| valid_version(name)
}

/// The releases among the links of a release page, in the order of the page.
pub open spec fn release_names(links: Seq<Seq<char>>) -> Seq<Seq<char>> {
    links.map_values(link_name()).filter(version_like())
}

/// The longest release page that is read, in characters.
///
/// The parser behind `FirefoxVersionSpider::from_listing` takes no text of
/// more than `u32::MAX` bytes, and it descends by recursion, one call for
/// each level of nesting. A page within this bound has at most four times as
/// many bytes, and nests no deeper than it has characters, and three: every
/// level is owed to a tag of the text, a tag has three characters or more
/// and adds at most three levels, and the parser supplies three elements
/// around every page.
pub const MAX_LISTING_CHARS: usize = 0x8_0000;

/// The stack that reading a release page may take for each character of the
/// page, in bytes. A thread that reads a page has that much stack for it.
/// A level of nesting was seen to take between one and two KiB: a stack of
/// two MiB carried a page nested a thousand deep, and not one nested two
/// thousand deep.
pub const LISTING_STACK_PER_CHAR: usize = 4096;

/// The text of every link that stands in a cell of a table row of the page
/// `html`, in the order of the page, as the HTML parser of `select` reads it.
pub uninterp spec fn table_links(html: Seq<char>) -> Seq<Seq<char>>;

/// Parses `html` with `select::document::Document::from`, walks it with
/// `Document::find` for the `a` elements below a `td` below a `tr`, and takes
/// `Node::text` of each. The walk yields the nodes in document order, so the
/// result depends on `html` alone; what it is for a given page is not stated
/// here, only named.
///
/// The parser does not take every text. It panics on one of more than
/// `u32::MAX` bytes, and it ends the process where a page nests deeper than
/// the stack carries, since both the parse and `Node::text` descend by
/// recursion. `requires` leaves out what is longer than `MAX_LISTING_CHARS`;
/// for what is left, the stack is the caller's to give, as
/// `LISTING_STACK_PER_CHAR` says.
#[verifier::external_body]
fn link_texts(html: &str) -> (texts: Vec<String>)
    requires
        html@.len() <= MAX_LISTING_CHARS,
    ensures
        names(texts@) == table_links(html@),
{
    Document::from(html)
        .find(Name("tr").descendant(Name("td")).descendant(Name("a")))
        .map(|node| node.text())
        .collect()
}

/// The known releases of Firefox, in the order of the release page.
#[derive(Debug)]
pub struct FirefoxVersionSpider(pub Vec<String>);

impl View for FirefoxVersionSpider {
    type V = Seq<Seq<char>>;

    open spec fn view(&self) -> Seq<Seq<char>> {
        names(self.0@)
    }
}

impl FirefoxVersionSpider {
    /// The releases among the link texts `links` of a release page: each text
    /// loses the slashes at its end, and is kept if it begins like a version.
    pub fn from_links(links: &Vec<String>) -> (spider: Self)
        ensures
            spider@ == release_names(names(links@)),
    {
        let mut releases: Vec<String> = Vec::new();
        let mut i: usize = 0;
        proof {
            assert(names(links@).take(0).map_values(link_name()).filter(version_like()) == Seq::<
                Seq<char>,
            >::empty()) by {
                reveal(Seq::filter);
            }
        }
        while i < links.len()
            invariant
                i <= links.len(),
                names(releases@) == release_names(names(links@).take(i as int)),
            decreases links.len() - i,
        {
            let name = trim_end(links[i].as_str(), '/');
            let ghost before = releases@;
            proof {
                let seen = names(links@).take(i as int);
                assert(names(links@).take(i + 1) == seen.push(links@[i as int]@));
                seen.lemma_push_map_commute(link_name(), links@[i as int]@);
                seen.map_values(link_name()).lemma_filter_push(name@, version_like());
            }
            if is_valid_version(name.as_str()) {
                releases.push(name);
                assert(names(releases@) == names(before).push(name@));
            }
            i += 1;
        }
        proof {
            assert(names(links@).take(links.len() as int) == names(links@));
        }
        FirefoxVersionSpider(releases)
    }

    /// The releases that the release page `html` links to. A page of more
    /// than `MAX_LISTING_CHARS` characters is not read, and gives nothing.
    ///
    /// Reading descends as deep as the page nests: the thread that calls
    /// has `LISTING_STACK_PER_CHAR` bytes of stack for each character.
    pub fn from_listing(html: &str) -> (spider: Option<Self>)
        ensures
            spider is Some <==> html@.len() <= MAX_LISTING_CHARS,
            spider is Some ==> spider->0@ == release_names(table_links(html@)),
    {
        if html.unicode_len() > MAX_LISTING_CHARS {
            return None;
        }
        let links = link_texts(html);
        Some(FirefoxVersionSpider::from_links(&links))
    }
}

/// The address of the installer of version `version` for `arch`.
pub open spec fn installer_url(version: Seq<char>, arch: Seq<char>) -> Seq<char> {
    "https://ftp.mozilla.org/pub/firefox/releases/"@ + version + "/"@ + arch
        + "/zh-CN/Firefox%20Setup%20"@ + version + ".exe"@
}

/// The address of the installer of version `version` for `arch`.
pub fn installer_request(version: &str, arch: &str) -> (url: String)
    ensures
        url@ == installer_url(version@, arch@),
{
    let mut url = String::from_str("https://ftp.mozilla.org/pub/firefox/releases/");
    url.append(version);
    url.append("/");
    url.append(arch);
    url.append("/zh-CN/Firefox%20Setup%20");
    url.append(version);
    url.append(".exe");
    url
}

/// `bytes::Bytes`, a shared buffer of bytes. Nothing inside it is seen here:
/// what it holds is spoken of through `contents`.
#[verifier::external_type_specification]
#[verifier::external_body]
pub struct ExBytes(bytes::Bytes);

/// The bytes that a buffer holds, in order.
pub uninterp spec fn contents(buffer: Bytes) -> Seq<u8>;

/// `Bytes::as_ref`: the slice that the buffer stands for. It holds the bytes
/// of the buffer, in order.
#[verifier::external_body]
fn buffer_slice(buffer: &Bytes) -> (slice: &[u8])
    ensures
        slice@ == contents(*buffer),
{
    buffer.as_ref()
}

/// `Bytes::slice` with a range that is open at its end: a buffer of the bytes
/// from position `begin` on. The call panics when `begin` lies past the end
/// of the buffer, which `requires` leaves out.
#[verifier::external_body]
fn buffer_from(buffer: &Bytes, begin: usize) -> (rest: Bytes)
    requires
        begin <= contents(*buffer).len(),
    ensures
        contents(rest) == contents(*buffer).skip(begin as int),
{
    buffer.slice(begin..)
}

/// The six bytes with which a 7z archive begins.
pub open spec fn archive_signature() -> Seq<u8> {
    seq![0x37u8, 0x7au8, 0xbcu8, 0xafu8, 0x27u8, 0x1cu8]
}

/// The archive inside an installer: the installer from the first place on
/// at which the signature of a 7z archive stands. An installer without the
/// signature holds no archive.
pub fn embedded_archive(installer: &Bytes) -> (archive: Option<Bytes>)
    ensures
        archive is None <==> forall|at: int| !occurs_at(contents(*installer), archive_signature(), at),
        archive is Some ==> exists|at: int|
            first_occurrence(contents(*installer), archive_signature(), at) && contents(archive->0)
                == contents(*installer).skip(at),
{
    let signature: [u8; 6] = [0x37, 0x7a, 0xbc, 0xaf, 0x27, 0x1c];
    assert(signature@ == archive_signature());
    match find_sequence(buffer_slice(installer), signature.as_slice()) {
        Some(at) => Some(buffer_from(installer, at)),
        None => None,
    }
}

/// Whether `c` is a numeric character, as `char::is_numeric` of the standard
/// library tells it: a decimal digit, a letter number or another number of
/// any script.
pub uninterp spec fn numeric_char(c: char) -> bool;

/// `char::is_numeric` of the standard library: whether the character has
/// one of the general categories of Unicode for numbers. Of the characters of
/// ASCII those are the ten digits and no other.
#[verifier::external_body]
fn is_numeric(c: char) -> (numeric: bool)
    ensures
        numeric == numeric_char(c),
        (c as u32) < 128 ==> numeric == is_digit(c),
{
    c.is_numeric()
}

/// Whether the release `name` answers a request for `query`: it begins with
/// `query`, and does not go on with a numeric character, so that `11` asks for
/// `11.0` and `11b1` and not for `110.0`.
pub open spec fn selects(name: Seq<char>, query: Seq<char>) -> bool {
    query.is_prefix_of(name) && (name.len() == query.len() || !numeric_char(
        name[query.len() as int],
    ))
}

/// The releases that answer a request for `query`.
pub open spec fn selected_by(query: Seq<char>) -> spec_fn(Seq<char>) -> bool {
    |name: Seq<char>| selects(name, query)
}

/// Whether `name` is a plain version: dots and numeric characters only.
pub open spec fn plain(name: Seq<char>) -> bool {
    forall|i: int| 0 <= i < name.len() ==> #[trigger] name[i] == '.' || numeric_char(name[i])
}

/// Whether `a` is at most `b` in the order of the dictionary, character by
/// character. This is the order of the two strings as such.
pub open spec fn lex_le(a: Seq<char>, b: Seq<char>) -> bool
    decreases a.len(),
{
    if a.len() == 0 {
        true
    } else if b.len() == 0 {
        false
    } else if a[0] != b[0] {
        a[0] < b[0]
    } else {
        lex_le(a.drop_first(), b.drop_first())
    }
}

/// Whether release `a` is listed no later than release `b`: plain versions
/// come before the others, and within each kind the order is that of the
/// dictionary.
pub open spec fn ordered(a: Seq<char>, b: Seq<char>) -> bool {
    if plain(a) == plain(b) {
        lex_le(a, b)
    } else {
        plain(a)
    }
}

/// Whether the releases `s` stand in their order.
pub open spec fn in_order(s: Seq<Seq<char>>) -> bool {
    forall|i: int, j: int| 0 <= i < j < s.len() ==> ordered(#[trigger] s[i], #[trigger] s[j])
}

/// Of two strings one is at most the other.
pub proof fn lemma_lex_total(a: Seq<char>, b: Seq<char>)
    ensures
        lex_le(a, b) || lex_le(b, a),
    decreases a.len(),
{
    if a.len() > 0 && b.len() > 0 && a[0] == b[0] {
        lemma_lex_total(a.drop_first(), b.drop_first());
    }
}

/// The order of the dictionary passes on along a chain.
pub proof fn lemma_lex_transitive(a: Seq<char>, b: Seq<char>, c: Seq<char>)
    requires
        lex_le(a, b),
        lex_le(b, c),
    ensures
        lex_le(a, c),
    decreases a.len(),
{
    if a.len() > 0 && a[0] == b[0] && b[0] == c[0] {
        lemma_lex_transitive(a.drop_first(), b.drop_first(), c.drop_first());
    }
}

/// Two strings of which each is at most the other are the same string.
pub proof fn lemma_lex_antisymmetric(a: Seq<char>, b: Seq<char>)
    requires
        lex_le(a, b),
        lex_le(b, a),
    ensures
        a == b,
    decreases a.len(),
{
    if a.len() > 0 {
        lemma_lex_antisymmetric(a.drop_first(), b.drop_first());
        assert(a == seq![a[0]] + a.drop_first());
        assert(b == seq![b[0]] + b.drop_first());
    } else {
        assert(a == b);
    }
}

/// The order of releases is total, passes on along a chain, and holds both
/// ways only between a release and itself: a list of releases has one order.
pub proof fn lemma_ordered_is_an_order(a: Seq<char>, b: Seq<char>, c: Seq<char>)
    ensures
        ordered(a, b) || ordered(b, a),
        ordered(a, b) && ordered(b, c) ==> ordered(a, c),
        ordered(a, b) && ordered(b, a) ==> a == b,
{
    lemma_lex_total(a, b);
    if ordered(a, b) && ordered(b, c) && plain(a) == plain(b) && plain(b) == plain(c) {
        lemma_lex_transitive(a, b, c);
    }
    if ordered(a, b) && ordered(b, a) {
        lemma_lex_antisymmetric(a, b);
    }
}

/// A list in order stays in order when a release is put in at a place where
/// everything before it is listed no later, and everything after it no
/// earlier.
proof fn lemma_insert_in_order(s: Seq<Seq<char>>, at: int, name: Seq<char>)
    requires
        in_order(s),
        0 <= at <= s.len(),
        forall|k: int| 0 <= k < at ==> ordered(#[trigger] s[k], name),
        forall|k: int| at <= k < s.len() ==> ordered(name, #[trigger] s[k]),
    ensures
        in_order(s.insert(at, name)),
{
    let t = s.insert(at, name);
    assert forall|x: int, y: int| 0 <= x < y < t.len() implies ordered(
        #[trigger] t[x],
        #[trigger] t[y],
    ) by {
        if x < at {
            assert(t[x] == s[x]);
        } else if x > at {
            assert(t[x] == s[x - 1]);
        }
        if y < at {
            assert(t[y] == s[y]);
        } else if y > at {
            assert(t[y] == s[y - 1]);
        }
    }
}

/// Whether `a` is at most `b` in the order of the dictionary.
fn lex_at_most(a: &Vec<char>, b: &Vec<char>) -> (at_most: bool)
    ensures
        at_most == lex_le(a@, b@),
{
    let mut i: usize = 0;
    proof {
        assert(a@.skip(0) == a@);
        assert(b@.skip(0) == b@);
    }
    while i < a.len()
        invariant
            i <= a.len(),
            i <= b.len(),
            lex_le(a@, b@) == lex_le(a@.skip(i as int), b@.skip(i as int)),
        decreases a.len() - i,
    {
        if i >= b.len() {
            return false;
        }
        proof {
            assert(a@.skip(i as int).drop_first() == a@.skip(i + 1));
            assert(b@.skip(i as int).drop_first() == b@.skip(i + 1));
        }
        if a[i] != b[i] {
            return a[i] < b[i];
        }
        i += 1;
    }
    true
}

/// Whether `name` is a plain version.
fn is_plain(name: &Vec<char>) -> (is: bool)
    ensures
        is == plain(name@),
{
    let mut i: usize = 0;
    while i < name.len()
        invariant
            i <= name.len(),
            forall|k: int| 0 <= k < i ==> #[trigger] name@[k] == '.' || numeric_char(name@[k]),
        decreases name.len() - i,
    {
        if name[i] != '.' && !is_numeric(name[i]) {
            return false;
        }
        i += 1;
    }
    true
}

/// Whether a release is listed no later than another, each given by its
/// characters and by whether it is a plain version.
fn listed_first(a_plain: bool, a: &Vec<char>, b_plain: bool, b: &Vec<char>) -> (first: bool)
    requires
        a_plain == plain(a@),
        b_plain == plain(b@),
    ensures
        first == ordered(a@, b@),
{
    if a_plain == b_plain {
        lex_at_most(a, b)
    } else {
        a_plain
    }
}

/// The strings that a sequence of references points to.
pub open spec fn texts(found: Seq<&String>) -> Seq<Seq<char>> {
    found.map_values(|name: &String| name@)
}

impl FirefoxVersionSpider {
    /// The releases that answer a request for `version`, in their order: the
    /// plain versions first, and each kind in the order of the dictionary.
    /// Every release that answers is there as often as it is known.
    pub fn find(&self, version: &str) -> (found: Vec<&String>)
        ensures
            texts(found@).to_multiset() == self@.filter(selected_by(version@)).to_multiset(),
            in_order(texts(found@)),
    {
        let query = to_chars(version);
        let mut found: Vec<&String> = Vec::new();
        let mut keys: Vec<Vec<char>> = Vec::new();
        let mut plains: Vec<bool> = Vec::new();
        let mut i: usize = 0;
        proof {
            assert(self@.take(0).filter(selected_by(version@)) == Seq::<Seq<char>>::empty()) by {
                reveal(Seq::filter);
            }
            assert(texts(found@) == Seq::<Seq<char>>::empty());
        }
        while i < self.0.len()
            invariant
                i <= self.0.len(),
                query@ == version@,
                keys@.len() == found@.len(),
                plains@.len() == found@.len(),
                forall|k: int| 0 <= k < found@.len() ==> (#[trigger] keys@[k])@ == found@[k]@,
                forall|k: int| 0 <= k < found@.len() ==> #[trigger] plains@[k] == plain(found@[k]@),
                texts(found@).to_multiset() == self@.take(i as int).filter(
                    selected_by(version@),
                ).to_multiset(),
                in_order(texts(found@)),
            decreases self.0.len() - i,
        {
            let name = &self.0[i];
            let chars = to_chars(name.as_str());
            proof {
                assert(self@.take(i + 1) == self@.take(i as int).push(name@));
                self@.take(i as int).lemma_filter_push(name@, selected_by(version@));
            }
            let answers = starts_with(&chars, &query) && (chars.len() == query.len() || !is_numeric(
                chars[query.len()],
            ));
            if answers {
                let name_plain = is_plain(&chars);
                let ghost before = found@;
                let mut at: usize = found.len();
                while at > 0 && !listed_first(plains[at - 1], &keys[at - 1], name_plain, &chars)
                    invariant
                        at <= found@.len(),
                        found@ == before,
                        chars@ == name@,
                        name_plain == plain(chars@),
                        keys@.len() == found@.len(),
                        plains@.len() == found@.len(),
                        forall|k: int|
                            0 <= k < found@.len() ==> (#[trigger] keys@[k])@ == found@[k]@,
                        forall|k: int|
                            0 <= k < found@.len() ==> #[trigger] plains@[k] == plain(found@[k]@),
                        forall|k: int|
                            at <= k < found@.len() ==> !ordered(#[trigger] texts(found@)[k], name@),
                    decreases at,
                {
                    at -= 1;
                }
                proof {
                    let old_texts = texts(before);
                    assert forall|k: int| 0 <= k < at implies ordered(
                        #[trigger] old_texts[k],
                        name@,
                    ) by {
                        assert(ordered(old_texts[at - 1], name@));
                        if k < at - 1 {
                            lemma_ordered_is_an_order(old_texts[k], old_texts[at - 1], name@);
                        }
                    }
                    assert forall|k: int| at <= k < old_texts.len() implies ordered(
                        name@,
                        #[trigger] old_texts[k],
                    ) by {
                        lemma_ordered_is_an_order(name@, old_texts[k], name@);
                    }
                }
                let ghost old_keys = keys@;
                let ghost old_plains = plains@;
                found.insert(at, name);
                keys.insert(at, chars);
                plains.insert(at, name_plain);
                proof {
                    assert forall|k: int| 0 <= k < found@.len() implies (#[trigger] keys@[k])@
                        == found@[k]@ by {
                        if k < at {
                            assert(keys@[k] == old_keys[k] && found@[k] == before[k]);
                        } else if k > at {
                            assert(keys@[k] == old_keys[k - 1] && found@[k] == before[k - 1]);
                        }
                    }
                    assert forall|k: int| 0 <= k < found@.len() implies #[trigger] plains@[k]
                        == plain(found@[k]@) by {
                        if k < at {
                            assert(plains@[k] == old_plains[k] && found@[k] == before[k]);
                        } else if k > at {
                            assert(plains@[k] == old_plains[k - 1] && found@[k] == before[k - 1]);
                        }
                    }
                    assert(texts(found@) == texts(before).insert(at as int, name@));
                    assert(texts(found@).to_multiset() == self@.take(i + 1).filter(
                        selected_by(version@),
                    ).to_multiset()) by {
                        to_multiset_insert(texts(before), at as int, name@);
                        to_multiset_build(
                            self@.take(i as int).filter(selected_by(version@)),
                            name@,
                        );
                    }
                    lemma_insert_in_order(texts(before), at as int, name@);
                }
            }
            i += 1;
        }
        proof {
            assert(self@.take(self.0.len() as int) == self@);
        }
        found
    }
}

} // verus!
