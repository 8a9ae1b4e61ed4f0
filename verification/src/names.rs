//! Names that are derived from model identities.

use vstd::prelude::*;
use vstd::slice::slice_subrange;
use vstd::string::*;
use vstd::utf8::*;

use crate::failure::{plain_failure, Failure};
use crate::path::{is_safe_component, lemma_piece_end, path_components, piece_end, ComponentView};
use crate::text;
use crate::text::{decimal_text, hex_char, hex_text};

verus! {

/// The state that an FNV-1a hash starts from.
pub const FNV_OFFSET: u64 = 0xcbf2_9ce4_8422_2325;

/// The factor of an FNV-1a hash.
pub const FNV_PRIME: u64 = 0x0000_0100_0000_01b3;

/// An FNV-1a hash after one more byte.
pub open spec fn fnv_step(hash: u64, byte: u8) -> u64 {
    (hash ^ (byte as u64)).wrapping_mul(FNV_PRIME)
}

/// An FNV-1a hash after more bytes.
pub open spec fn fnv(hash: u64, bytes: Seq<u8>) -> u64
    decreases bytes.len(),
{
    if bytes.len() == 0 {
        hash
    } else {
        fnv_step(fnv(hash, bytes.drop_last()), bytes.last())
    }
}

fn fnv_bytes(hash: u64, bytes: &[u8]) -> (result: u64)
    ensures
        result == fnv(hash, bytes@),
{
    let mut result: u64 = hash;
    let mut position: usize = 0;
    while position < bytes.len()
        invariant
            position <= bytes@.len(),
            result == fnv(hash, bytes@.take(position as int)),
        decreases bytes@.len() - position,
    {
        assert(bytes@.take(position + 1).drop_last() =~= bytes@.take(position as int));
        result = (result ^ (bytes[position] as u64)).wrapping_mul(FNV_PRIME);
        position = position + 1;
    }
    assert(bytes@.take(position as int) =~= bytes@);
    result
}

/// The hash that names the index of a model and a profile.
pub open spec fn cache_hash(model: Seq<char>, profile: Seq<char>) -> u64 {
    fnv(fnv_step(fnv(FNV_OFFSET, encode_utf8(model)), 0xff), encode_utf8(profile))
}

/// The file name of the index of a model and a profile.
#[must_use]
pub fn cache_index_name(model: &str, profile: &str) -> (name: String)
    ensures
        name@ == "index-"@ + hex_text(cache_hash(model@, profile@) as nat, 16) + ".sidx"@,
{
    let model_hash: u64 = fnv_bytes(FNV_OFFSET, model.as_bytes());
    let separated: u64 = (model_hash ^ (0xffu8 as u64)).wrapping_mul(FNV_PRIME);
    let hash: u64 = fnv_bytes(separated, profile.as_bytes());
    text::join(text::join("index-", text::hex(hash, 16).as_str()).as_str(), ".sidx")
}

/// The identity of a model pack: its id and its version.
pub open spec fn pack_identity(id: Seq<char>, version: Seq<char>) -> Seq<char> {
    id + "@"@ + version
}

/// The identity under which a model's index is kept.
pub fn manifest_identity(id: &str, version: &str) -> (identity: String)
    ensures
        identity@ == pack_identity(id@, version@),
{
    text::join(text::join(id, "@").as_str(), version)
}

/// The state of the component hash after bytes are written to it: a state of zero starts afresh.
pub open spec fn stable_write(state: u64, bytes: Seq<u8>) -> u64 {
    fnv(
        if state == 0 {
            FNV_OFFSET
        } else {
            state
        },
        bytes,
    )
}

/// The state of the component hash after a text: its bytes, then a byte that no text holds.
pub open spec fn stable_text(state: u64, text: Seq<char>) -> u64 {
    stable_write(stable_write(state, encode_utf8(text)), seq![0xffu8])
}

/// The hash that tells model identities apart whose names look alike.
pub open spec fn component_hash(id: Seq<char>, version: Seq<char>) -> u64 {
    stable_text(stable_text(0, id), version)
}

/// A hash that stays the same between processes.
struct StableHasher {
    state: u64,
}

impl StableHasher {
    fn write(&mut self, bytes: &[u8])
        ensures
            final(self).state == stable_write(old(self).state, bytes@),
    {
        if self.state == 0 {
            self.state = FNV_OFFSET;
        }
        self.state = fnv_bytes(self.state, bytes);
    }

    fn write_text(&mut self, text: &str)
        ensures
            final(self).state == stable_text(old(self).state, text@),
    {
        self.write(text.as_bytes());
        let end: [u8; 1] = [0xff];
        assert(end@ =~= seq![0xffu8]);
        self.write(end.as_slice());
    }

    fn finish(&self) -> (hash: u64)
        ensures
            hash == self.state,
    {
        self.state
    }
}

/// What a character becomes in a component: a lower-case letter, a digit or a dash.
pub open spec fn slug_char(c: char) -> char {
    if 'A' <= c <= 'Z' {
        ((c as u8 + 32) as u8) as char
    } else if 'a' <= c <= 'z' || '0' <= c <= '9' {
        c
    } else {
        '-'
    }
}

/// A text in which each run of dashes has become one.
pub open spec fn single_dashes(text: Seq<char>) -> Seq<char>
    decreases text.len(),
{
    if text.len() == 0 {
        Seq::empty()
    } else {
        let front = single_dashes(text.drop_last());
        if text.last() == '-' && front.len() > 0 && front.last() == '-' {
            front
        } else {
            front.push(text.last())
        }
    }
}

/// A text without the dashes at its ends.
pub open spec fn without_outer_dashes(text: Seq<char>) -> Seq<char>
    decreases text.len(),
{
    if text.len() > 0 && text[0] == '-' {
        without_outer_dashes(text.drop_first())
    } else if text.len() > 0 && text.last() == '-' {
        without_outer_dashes(text.drop_last())
    } else {
        text
    }
}

/// The readable part of a component.
pub open spec fn slug(id: Seq<char>, version: Seq<char>) -> Seq<char> {
    let mapped = (id + seq!['-'] + version).map_values(|c: char| slug_char(c));
    let trimmed = without_outer_dashes(single_dashes(mapped));
    let named = if trimmed.len() == 0 {
        "model"@
    } else {
        trimmed
    };
    if named.len() > 72 {
        named.take(72)
    } else {
        named
    }
}

/// The directory name of a model identity.
pub open spec fn component_name(id: Seq<char>, version: Seq<char>) -> Seq<char> {
    slug(id, version) + "-"@ + hex_text(component_hash(id, version) as nat, 16)
}

fn slugged(c: char) -> (result: char)
    ensures
        result == slug_char(c),
{
    if 'A' <= c && c <= 'Z' {
        (c as u8 + 32) as char
    } else if ('a' <= c && c <= 'z') || ('0' <= c && c <= '9') {
        c
    } else {
        '-'
    }
}

fn push_slug(collapsed: &mut Vec<char>, chars: &Vec<char>, Ghost(before): Ghost<Seq<char>>)
    requires
        old(collapsed)@ == single_dashes(before.map_values(|c: char| slug_char(c))),
    ensures
        final(collapsed)@ == single_dashes((before + chars@).map_values(|c: char| slug_char(c))),
{
    let mut position: usize = 0;
    assert(before + chars@.take(0) =~= before);
    while position < chars.len()
        invariant
            position <= chars@.len(),
            collapsed@ == single_dashes(
                (before + chars@.take(position as int)).map_values(|c: char| slug_char(c)),
            ),
        decreases chars@.len() - position,
    {
        let c = slugged(chars[position]);
        proof {
            let next = (before + chars@.take(position + 1)).map_values(|c: char| slug_char(c));
            assert(next.drop_last() =~= (before + chars@.take(position as int)).map_values(
                |c: char| slug_char(c),
            ));
            assert(next.last() == c);
        }
        if !(c == '-' && collapsed.len() > 0 && collapsed[collapsed.len() - 1] == '-') {
            collapsed.push(c);
        }
        position = position + 1;
    }
    assert(chars@.take(position as int) =~= chars@);
}

fn trim_dashes(chars: &Vec<char>) -> (range: (usize, usize))
    ensures
        range.0 <= range.1 <= chars@.len(),
        chars@.subrange(range.0 as int, range.1 as int) == without_outer_dashes(chars@),
{
    let mut start: usize = 0;
    let mut end: usize = chars.len();
    assert(chars@.subrange(0, chars@.len() as int) =~= chars@);
    while start < end && chars[start] == '-'
        invariant
            start <= end == chars@.len(),
            without_outer_dashes(chars@) == without_outer_dashes(
                chars@.subrange(start as int, end as int),
            ),
        decreases end - start,
    {
        assert(chars@.subrange(start as int, end as int).drop_first() =~= chars@.subrange(
            start + 1,
            end as int,
        ));
        start = start + 1;
    }
    while start < end && chars[end - 1] == '-'
        invariant
            start <= end <= chars@.len(),
            start < end ==> chars@[start as int] != '-',
            without_outer_dashes(chars@) == without_outer_dashes(
                chars@.subrange(start as int, end as int),
            ),
        decreases end - start,
    {
        assert(chars@.subrange(start as int, end as int).drop_last() =~= chars@.subrange(
            start as int,
            end - 1,
        ));
        end = end - 1;
    }
    (start, end)
}

fn component_slug(id: &str, version: &str) -> (result: String)
    ensures
        result@ == slug(id@, version@),
{
    let mut dash: Vec<char> = Vec::new();
    dash.push('-');
    assert(dash@ =~= seq!['-']);
    let mut collapsed: Vec<char> = Vec::new();
    assert(Seq::<char>::empty().map_values(|c: char| slug_char(c)) =~= Seq::<char>::empty());
    push_slug(&mut collapsed, &text::characters(id), Ghost(Seq::empty()));
    assert(Seq::<char>::empty() + id@ =~= id@);
    push_slug(&mut collapsed, &dash, Ghost(id@));
    push_slug(&mut collapsed, &text::characters(version), Ghost(id@ + seq!['-']));
    let (start, end) = trim_dashes(&collapsed);
    if start == end {
        proof {
            reveal_strlit("model");
        }
        return "model".to_owned();
    }
    let limit: usize = if end - start > 72 {
        start + 72
    } else {
        end
    };
    let result = text::from_characters(slice_subrange(collapsed.as_slice(), start, limit));
    assert(result@ =~= slug(id@, version@));
    result
}

/// The directory that a model identity is installed to.
pub fn install_component(id: &str, version: &str) -> (component: String)
    ensures
        component@ == component_name(id@, version@),
{
    let slug = component_slug(id, version);
    let mut hasher = StableHasher { state: 0 };
    hasher.write_text(id);
    hasher.write_text(version);
    text::join(
        text::join(slug.as_str(), "-").as_str(),
        text::hex(hasher.finish(), 16).as_str(),
    )
}

/// The most revisions that one identity can have beside its first installation.
pub const MAX_REVISION: u64 = 10_000;

/// The directory name of a revision of a component; the component itself comes first.
pub open spec fn revision_name(base: Seq<char>, revision: nat) -> Seq<char> {
    if revision == 0 {
        base
    } else {
        base + "-r"@ + decimal_text(revision)
    }
}

/// The first revision from `revision` on whose name is free.
pub open spec fn free_revision(
    existing: Seq<Seq<char>>,
    base: Seq<char>,
    revision: nat,
) -> Option<nat>
    decreases MAX_REVISION + 1 - revision,
{
    if revision > MAX_REVISION {
        None
    } else if existing.contains(revision_name(base, revision)) {
        free_revision(existing, base, revision + 1)
    } else {
        Some(revision)
    }
}

/// The values of texts.
pub open spec fn text_views(texts: Seq<String>) -> Seq<Seq<char>> {
    texts.map_values(|text: String| text@)
}

/// Whether a list of texts holds a text.
pub fn contains_text(texts: &Vec<String>, wanted: &str) -> (found: bool)
    ensures
        found == text_views(texts@).contains(wanted@),
{
    let mut position: usize = 0;
    while position < texts.len()
        invariant
            position <= texts@.len(),
            forall|i: int| 0 <= i < position ==> texts@[i]@ != wanted@,
        decreases texts@.len() - position,
    {
        if text::same(texts[position].as_str(), wanted) {
            assert(text_views(texts@)[position as int] == wanted@);
            return true;
        }
        position = position + 1;
    }
    assert forall|i: int| 0 <= i < text_views(texts@).len() implies text_views(texts@)[i]
        != wanted@ by {
        assert(text_views(texts@)[i] == texts@[i]@);
    }
    false
}

/// The directory that the next installation of a model identity goes to, given the names that are
/// taken.
pub fn available_component(existing: &Vec<String>, id: &str, version: &str) -> (component: Result<
    String,
    Failure,
>)
    ensures
        match (
            component,
            free_revision(text_views(existing@), component_name(id@, version@), 0),
        ) {
            (Ok(component), Some(revision)) => component@ == revision_name(
                component_name(id@, version@),
                revision,
            ),
            (Err(failure), None) => failure@ == plain_failure(
                "cannot allocate a model-pack revision component"@,
            ),
            _ => false,
        },
{
    let base = install_component(id, version);
    let ghost taken = text_views(existing@);
    if !contains_text(existing, base.as_str()) {
        return Ok(base);
    }
    let mut revision: u64 = 1;
    while revision <= MAX_REVISION
        invariant
            1 <= revision <= MAX_REVISION + 1,
            taken == text_views(existing@),
            base@ == component_name(id@, version@),
            free_revision(taken, base@, 0) == free_revision(taken, base@, revision as nat),
        decreases MAX_REVISION + 1 - revision,
    {
        let component = text::join(
            text::join(base.as_str(), "-r").as_str(),
            text::decimal(revision).as_str(),
        );
        if !contains_text(existing, component.as_str()) {
            return Ok(component);
        }
        revision = revision + 1;
    }
    Err(Failure::plain("cannot allocate a model-pack revision component"))
}

/// Whether a character can stand in a component.
pub open spec fn is_component_char(c: char) -> bool {
    'a' <= c <= 'z' || '0' <= c <= '9' || c == '-'
}

/// Whether a text is made of characters that can stand in a component.
pub open spec fn is_component_text(text: Seq<char>) -> bool {
    forall|i: int| 0 <= i < text.len() ==> is_component_char(#[trigger] text[i])
}

proof fn lemma_join_component_text(left: Seq<char>, right: Seq<char>)
    requires
        is_component_text(left),
        is_component_text(right),
    ensures
        is_component_text(left + right),
{
}

proof fn lemma_single_dashes(text: Seq<char>)
    requires
        is_component_text(text),
    ensures
        is_component_text(single_dashes(text)),
    decreases text.len(),
{
    if text.len() > 0 {
        assert(is_component_char(text[text.len() - 1]));
        assert forall|i: int| 0 <= i < text.drop_last().len() implies is_component_char(
            #[trigger] text.drop_last()[i],
        ) by {
            assert(is_component_char(text[i]));
        }
        lemma_single_dashes(text.drop_last());
    }
}

proof fn lemma_without_outer_dashes(text: Seq<char>)
    requires
        is_component_text(text),
    ensures
        is_component_text(without_outer_dashes(text)),
    decreases text.len(),
{
    if text.len() > 0 && text[0] == '-' {
        assert forall|i: int| 0 <= i < text.drop_first().len() implies is_component_char(
            #[trigger] text.drop_first()[i],
        ) by {
            assert(is_component_char(text[i + 1]));
        }
        lemma_without_outer_dashes(text.drop_first());
    } else if text.len() > 0 && text.last() == '-' {
        assert forall|i: int| 0 <= i < text.drop_last().len() implies is_component_char(
            #[trigger] text.drop_last()[i],
        ) by {
            assert(is_component_char(text[i]));
        }
        lemma_without_outer_dashes(text.drop_last());
    }
}

proof fn lemma_hex_text(number: nat, width: nat)
    ensures
        is_component_text(hex_text(number, width)),
        hex_text(number, width).len() == width,
    decreases width,
{
    if width > 0 {
        lemma_hex_text(number / 16, (width - 1) as nat);
        assert(is_component_char(hex_char(number % 16)));
    }
}

proof fn lemma_decimal_text(number: nat)
    ensures
        is_component_text(decimal_text(number)),
        decimal_text(number).len() > 0,
    decreases number,
{
    if number >= 10 {
        lemma_decimal_text(number / 10);
        assert(is_component_char(text::digit_char(number % 10)));
    } else {
        assert(is_component_char(text::digit_char(number)));
    }
}

proof fn lemma_slug(id: Seq<char>, version: Seq<char>)
    ensures
        is_component_text(slug(id, version)),
        0 < slug(id, version).len() <= 72,
{
    let mapped = (id + seq!['-'] + version).map_values(|c: char| slug_char(c));
    assert forall|i: int| 0 <= i < mapped.len() implies is_component_char(#[trigger] mapped[i]) by {
        assert(mapped[i] == slug_char((id + seq!['-'] + version)[i]));
    }
    lemma_single_dashes(mapped);
    lemma_without_outer_dashes(single_dashes(mapped));
    reveal_strlit("model");
}

/// A name is made of component characters and is longer than two: it is one ordinary component.
proof fn lemma_component_text_is_safe(name: Seq<char>)
    requires
        is_component_text(name),
        name.len() > 2,
    ensures
        is_safe_component(name),
{
    assert(is_component_char(name[0]));
    lemma_piece_end(name);
    if piece_end(name) < name.len() {
        assert(is_component_char(name[piece_end(name)]));
    }
    assert(name.take(name.len() as int) =~= name);
    assert(name != seq!['.'] && name != seq!['.', '.']);
    assert(path_components(name) =~= seq![ComponentView::Normal(name)]);
}

/// Every model identity, whatever its characters, is installed to one ordinary directory below the
/// model directory, whose name is made of lower-case letters, digits and dashes.
pub proof fn law_component_is_safe(id: Seq<char>, version: Seq<char>, revision: nat)
    ensures
        is_component_text(revision_name(component_name(id, version), revision)),
        is_safe_component(revision_name(component_name(id, version), revision)),
{
    lemma_slug(id, version);
    lemma_hex_text(component_hash(id, version) as nat, 16);
    lemma_decimal_text(revision);
    reveal_strlit("-");
    reveal_strlit("-r");
    lemma_join_component_text(slug(id, version), "-"@);
    lemma_join_component_text(
        slug(id, version) + "-"@,
        hex_text(component_hash(id, version) as nat, 16),
    );
    lemma_join_component_text(component_name(id, version), "-r"@);
    lemma_join_component_text(component_name(id, version) + "-r"@, decimal_text(revision));
    lemma_component_text_is_safe(revision_name(component_name(id, version), revision));
}

/// A component that is chosen for an installation is none of those that exist.
pub proof fn law_available_component_is_free(
    existing: Seq<Seq<char>>,
    base: Seq<char>,
    revision: nat,
)
    ensures
        free_revision(existing, base, revision) matches Some(chosen) ==> chosen >= revision
            && !existing.contains(revision_name(base, chosen)),
    decreases MAX_REVISION + 1 - revision,
{
    if revision <= MAX_REVISION && existing.contains(revision_name(base, revision)) {
        law_available_component_is_free(existing, base, revision + 1);
    }
}

} // verus!
