//! What the names that are derived from model identities tell.

use vstd::prelude::*;
use vstd::string::*;
use vstd::utf8::*;

use crate::failure::Failure;
use crate::names::{
    available_component, cache_index_name, component_hash, component_name, contains_text, fnv,
    fnv_step, free_revision, install_component, manifest_identity, revision_name, single_dashes,
    slug, slug_char, text_views, without_outer_dashes,
};
use crate::text::{decimal_text, hex_text};
use crate::text_laws::{hex_digit_value, hex_range, hex_spelled};

verus! {

/// The FNV-1a hash of bytes, with sixty-four bits.
pub open spec fn fnv1a(bytes: Seq<u8>) -> u64
    decreases bytes.len(),
{
    if bytes.len() == 0 {
        0xcbf2_9ce4_8422_2325
    } else {
        (((fnv1a(bytes.drop_last()) ^ (bytes.last() as u64)) * 0x100_0000_01b3)
            % 0x1_0000_0000_0000_0000) as u64
    }
}

proof fn lemma_fnv_step(hash: u64, byte: u8)
    ensures
        fnv_step(hash, byte) == ((hash ^ (byte as u64)) * 0x100_0000_01b3)
            % 0x1_0000_0000_0000_0000,
{
}

proof fn lemma_fnv_joined(hash: u64, front: Seq<u8>, back: Seq<u8>)
    ensures
        fnv(hash, front + back) == fnv(fnv(hash, front), back),
    decreases back.len(),
{
    if back.len() == 0 {
        assert(front + back =~= front);
    } else {
        lemma_fnv_joined(hash, front, back.drop_last());
        assert((front + back).drop_last() =~= front + back.drop_last());
    }
}

proof fn lemma_fnv(bytes: Seq<u8>)
    ensures
        fnv(crate::names::FNV_OFFSET, bytes) == fnv1a(bytes),
    decreases bytes.len(),
{
    if bytes.len() > 0 {
        lemma_fnv(bytes.drop_last());
        lemma_fnv_step(fnv1a(bytes.drop_last()), bytes.last());
    }
}

proof fn lemma_hash_text(hash: u64)
    ensures
        hex_text(hash as nat, 16).len() == 16,
        hex_spelled(hex_text(hash as nat, 16)) == hash,
        forall|i: int| 0 <= i < 16 ==> hex_digit_value(#[trigger] hex_text(hash as nat, 16)[i]) >= 0,
{
    crate::text_laws::lemma_hex(hash as nat, 16);
    reveal_with_fuel(hex_range, 17);
    assert(hex_range(16) == 0x1_0000_0000_0000_0000);
}

/// An index is called `index-`, then in sixteen hexadecimal digits the hash of the model and the profile,
/// which a byte parts that no text has, then `.sidx`.
pub proof fn law_index_names_are_hashes(model: &str, profile: &str, name: String)
    requires
        call_ensures(cache_index_name, (model, profile), name),
    ensures
        name@.len() == 27,
        name@.take(6) == seq!['i', 'n', 'd', 'e', 'x', '-'],
        name@.skip(22) == seq!['.', 's', 'i', 'd', 'x'],
        hex_spelled(name@.subrange(6, 22)) == fnv1a(
            encode_utf8(model@) + seq![0xffu8] + encode_utf8(profile@),
        ),
        forall|i: int| 6 <= i < 22 ==> hex_digit_value(#[trigger] name@[i]) >= 0,
{
    reveal_strlit("index-");
    reveal_strlit(".sidx");
    let first = encode_utf8(model@);
    let second = encode_utf8(profile@);
    let hash = crate::names::cache_hash(model@, profile@);
    lemma_hash_text(hash);
    let digits = hex_text(hash as nat, 16);
    assert(name@.take(6) =~= seq!['i', 'n', 'd', 'e', 'x', '-']);
    assert(name@.skip(22) =~= seq!['.', 's', 'i', 'd', 'x']);
    assert(name@.subrange(6, 22) =~= digits);
    assert forall|i: int| 6 <= i < 22 implies hex_digit_value(#[trigger] name@[i]) >= 0 by {
        assert(digits[i - 6] == name@[i]);
    }
    let offset = crate::names::FNV_OFFSET;
    lemma_fnv_joined(offset, first, seq![0xffu8]);
    assert(seq![0xffu8].drop_last() =~= Seq::<u8>::empty());
    assert(fnv(fnv(offset, first), seq![0xffu8].drop_last()) == fnv(offset, first));
    lemma_fnv_joined(offset, first + seq![0xffu8], second);
    lemma_fnv(first + seq![0xffu8] + second);
}

/// A model is identified by its id and its version, with `@` between them.
pub proof fn law_identities_join_id_and_version(id: &str, version: &str, identity: String)
    requires
        call_ensures(manifest_identity, (id, version), identity),
    ensures
        identity@ == id@ + seq!['@'] + version@,
{
    reveal_strlit("@");
    assert("@"@ =~= seq!['@']);
}

/// A text is found among others if and only if one of them is that text.
pub proof fn law_texts_are_found(texts: &Vec<String>, wanted: &str, found: bool)
    requires
        call_ensures(contains_text, (texts, wanted), found),
    ensures
        found <==> exists|i: int| 0 <= i < texts@.len() && (#[trigger] texts@[i])@ == wanted@,
{
    crate::argument_laws::lemma_given(texts@, wanted@);
}

/// What a character is in a component: a lower-case letter or a digit as it is, an upper-case letter in
/// lower case, and any other a dash.
pub open spec fn plain_char(c: char) -> char {
    if 'A' <= c <= 'Z' {
        (c as u32 + 32) as char
    } else if 'a' <= c <= 'z' || '0' <= c <= '9' {
        c
    } else {
        '-'
    }
}

/// The letters and digits of a text: what is not a dash.
pub open spec fn letters(text: Seq<char>) -> Seq<char>
    decreases text.len(),
{
    if text.len() == 0 {
        Seq::empty()
    } else if text.last() == '-' {
        letters(text.drop_last())
    } else {
        letters(text.drop_last()).push(text.last())
    }
}

/// Whether dashes only part what they stand between: none is at an end, and no two are side by side.
pub open spec fn has_single_dashes(text: Seq<char>) -> bool {
    forall|i: int| 0 <= i < text.len() - 1 && #[trigger] text[i] == '-' ==> text[i + 1] != '-'
}

proof fn lemma_single_dashes(text: Seq<char>)
    ensures
        letters(single_dashes(text)) == letters(text),
        has_single_dashes(single_dashes(text)),
    decreases text.len(),
{
    if text.len() > 0 {
        let front = single_dashes(text.drop_last());
        lemma_single_dashes(text.drop_last());
        let all = single_dashes(text);
        if !(text.last() == '-' && front.len() > 0 && front.last() == '-') {
            assert(all.drop_last() =~= front);
            assert forall|i: int| 0 <= i < all.len() - 1 && #[trigger] all[i] == '-' implies all[i
                + 1] != '-' by {
                if i < front.len() - 1 {
                    assert(front[i] == '-');
                    assert(front[i + 1] == all[i + 1]);
                } else {
                    assert(front[i] == front.last());
                }
            }
        }
    }
}

proof fn lemma_letters_skip(text: Seq<char>)
    requires
        text.len() > 0,
        text[0] == '-',
    ensures
        letters(text) == letters(text.drop_first()),
    decreases text.len(),
{
    let rest = text.drop_first();
    if text.len() == 1 {
        assert(text.drop_last() =~= Seq::<char>::empty());
        assert(rest =~= Seq::<char>::empty());
        assert(letters(text.drop_last()) == Seq::<char>::empty());
    } else {
        lemma_letters_skip(text.drop_last());
        assert(text.drop_last().drop_first() =~= rest.drop_last());
        assert(rest.last() == text.last());
    }
}

proof fn lemma_outer_dashes(text: Seq<char>)
    requires
        has_single_dashes(text),
    ensures
        letters(without_outer_dashes(text)) == letters(text),
        has_single_dashes(without_outer_dashes(text)),
        without_outer_dashes(text).len() > 0 ==> without_outer_dashes(text)[0] != '-'
            && without_outer_dashes(text).last() != '-',
    decreases text.len(),
{
    if text.len() > 0 && text[0] == '-' {
        let rest = text.drop_first();
        lemma_letters_skip(text);
        assert forall|i: int| 0 <= i < rest.len() - 1 && #[trigger] rest[i] == '-' implies rest[i
            + 1] != '-' by {
            assert(text[i + 1] == '-');
        }
        lemma_outer_dashes(rest);
    } else if text.len() > 0 && text.last() == '-' {
        let rest = text.drop_last();
        assert forall|i: int| 0 <= i < rest.len() - 1 && #[trigger] rest[i] == '-' implies rest[i
            + 1] != '-' by {
            assert(text[i] == '-');
        }
        lemma_outer_dashes(rest);
    }
}

/// A model is installed to a directory whose name has a readable part, a dash and sixteen hexadecimal
/// digits. The readable part has at most seventy-two characters, does not begin with a dash and has no two
/// of them side by side. It holds every letter and digit of the id and of the version, in lower case and in
/// their order, unless it is cut off or there are none.
pub proof fn law_components_are_readable(id: &str, version: &str, component: String) -> (readable: Seq<
    char,
>)
    requires
        call_ensures(install_component, (id, version), component),
    ensures
        ({
            let plain = (id@ + seq!['-'] + version@).map_values(|c: char| plain_char(c));
            &&& component@.len() == readable.len() + 17
            &&& component@.take(readable.len() as int) == readable
            &&& component@[readable.len() as int] == '-'
            &&& forall|i: int|
                readable.len() < i < component@.len() ==> hex_digit_value(
                    #[trigger] component@[i],
                ) >= 0
            &&& hex_spelled(component@.skip(readable.len() as int + 1)) == component_hash(id@, version@)
            &&& 0 < readable.len() <= 72
            &&& readable[0] != '-'
            &&& has_single_dashes(readable)
            &&& readable.len() < 72 && letters(plain).len() > 0 ==> letters(readable) == letters(
                plain,
            )
            &&& letters(plain).len() == 0 ==> readable == "model"@
        }),
{
    reveal_strlit("-");
    reveal_strlit("model");
    let joined = id@ + seq!['-'] + version@;
    let plain = joined.map_values(|c: char| plain_char(c));
    let mapped = joined.map_values(|c: char| slug_char(c));
    assert forall|i: int| 0 <= i < joined.len() implies mapped[i] == plain[i] by {
        let c = joined[i];
        if 'A' <= c <= 'Z' {
            assert(((c as u8 + 32) as u8) as char == (c as u32 + 32) as char);
        }
    }
    assert(mapped =~= plain);
    let single = single_dashes(mapped);
    let trimmed = without_outer_dashes(single);
    lemma_single_dashes(mapped);
    lemma_outer_dashes(single);
    let readable = slug(id@, version@);
    let named = if trimmed.len() == 0 {
        "model"@
    } else {
        trimmed
    };
    if trimmed.len() == 0 {
        assert(letters(trimmed).len() == 0);
        assert("model"@ =~= seq!['m', 'o', 'd', 'e', 'l']);
        assert(has_single_dashes("model"@));
    } else {
        assert(letters(trimmed).len() > 0);
    }
    assert(has_single_dashes(named));
    if named.len() > 72 {
        assert forall|i: int| 0 <= i < readable.len() - 1 && #[trigger] readable[i]
            == '-' implies readable[i + 1] != '-' by {
            assert(named[i] == '-');
        }
    }
    let hash = component_hash(id@, version@);
    lemma_hash_text(hash);
    let digits = hex_text(hash as nat, 16);
    assert(component@ == readable + "-"@ + digits);
    assert(component@.take(readable.len() as int) =~= readable);
    assert(component@.skip(readable.len() as int + 1) =~= digits);
    assert forall|i: int| readable.len() < i < component@.len() implies hex_digit_value(
        #[trigger] component@[i],
    ) >= 0 by {
        assert(component@[i] == digits[i - readable.len() - 1]);
    }
    readable
}

/// The digits in the name of a component are the hash of the id and the version, each with a byte behind it
/// that no text has, unless a hash on the way is zero.
pub proof fn law_component_hashes(id: Seq<char>, version: Seq<char>)
    requires
        fnv1a(encode_utf8(id)) != 0,
        fnv1a(encode_utf8(id) + seq![0xffu8]) != 0,
        fnv1a(encode_utf8(id) + seq![0xffu8] + encode_utf8(version)) != 0,
    ensures
        component_hash(id, version) == fnv1a(
            encode_utf8(id) + seq![0xffu8] + encode_utf8(version) + seq![0xffu8],
        ),
{
    let end = seq![0xffu8];
    let first = encode_utf8(id);
    let second = encode_utf8(version);
    let offset = crate::names::FNV_OFFSET;
    lemma_fnv(first);
    lemma_fnv(first + end);
    lemma_fnv(first + end + second);
    lemma_fnv(first + end + second + end);
    lemma_fnv_joined(offset, first, end);
    lemma_fnv_joined(offset, first + end, second);
    lemma_fnv_joined(offset, first + end + second, end);
}

proof fn lemma_free_revision(existing: Seq<Seq<char>>, base: Seq<char>, revision: nat)
    requires
        revision <= 10_001,
    ensures
        free_revision(existing, base, revision) matches Some(chosen) ==> revision <= chosen
            <= 10_000 && !existing.contains(revision_name(base, chosen)) && forall|other: nat|
            revision <= other < chosen ==> existing.contains(
                #[trigger] revision_name(base, other),
            ),
        free_revision(existing, base, revision) is None ==> forall|other: nat|
            revision <= other <= 10_000 ==> existing.contains(
                #[trigger] revision_name(base, other),
            ),
    decreases 10_001 - revision,
{
    if revision <= 10_000 && existing.contains(revision_name(base, revision)) {
        lemma_free_revision(existing, base, revision + 1);
    }
}

/// A model goes to the directory of its identity where that is free, and else to that of the first free
/// revision; it is refused if and only if all ten thousand are taken.
pub proof fn law_installations_go_to_the_first_free_component(
    existing: &Vec<String>,
    id: &str,
    version: &str,
    component: Result<String, Failure>,
    base: String,
) -> (revision: nat)
    requires
        call_ensures(available_component, (existing, id, version), component),
        call_ensures(install_component, (id, version), base),
    ensures
        component matches Ok(component) ==> {
            &&& revision <= 10_000
            &&& revision == 0 ==> component@ == base@
            &&& revision > 0 ==> component@ == base@ + "-r"@ + decimal_text(revision)
            &&& forall|i: int| 0 <= i < existing@.len() ==> (#[trigger] existing@[i])@ != component@
            &&& revision > 0 ==> text_views(existing@).contains(base@)
            &&& forall|other: nat|
                0 < other < revision ==> text_views(existing@).contains(
                    base@ + "-r"@ + #[trigger] decimal_text(other),
                )
        },
        component is Err ==> text_views(existing@).contains(base@) && forall|other: nat|
            0 < other <= 10_000 ==> text_views(existing@).contains(
                base@ + "-r"@ + #[trigger] decimal_text(other),
            ),
{
    let views = text_views(existing@);
    let name = component_name(id@, version@);
    lemma_free_revision(views, name, 0);
    assert(revision_name(name, 0) == name);
    let found = free_revision(views, name, 0);
    if let Ok(component) = component {
        assert forall|i: int| 0 <= i < existing@.len() implies (#[trigger] existing@[i])@
            != component@ by {
            assert(views[i] == existing@[i]@);
        }
        let chosen = found->Some_0;
        assert forall|other: nat| 0 < other < chosen implies views.contains(
            base@ + "-r"@ + #[trigger] decimal_text(other),
        ) by {
            assert(views.contains(revision_name(name, other)));
        }
        chosen
    } else {
        assert forall|other: nat| 0 < other <= 10_000 implies views.contains(
            base@ + "-r"@ + #[trigger] decimal_text(other),
        ) by {
            assert(views.contains(revision_name(name, other)));
        }
        0
    }
}

} // verus!
