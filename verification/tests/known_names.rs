use checker::analysis::memory::known_names::DefPathElem;
use checker::analysis::memory::known_names::KnownNames;
use checker::analysis::memory::known_names::KnownNamesCache;
use checker::def_id::DefId;

fn path(elems: &[&str]) -> Vec<DefPathElem> {
    elems
        .iter()
        .map(|e| if e.is_empty() { DefPathElem::Other } else { DefPathElem::Named(e.to_string()) })
        .collect()
}

#[test]
fn as_ptr_is_known_in_any_crate() {
    assert_eq!(KnownNamesCache::get_known_name_for("mycrate", &path(&["Foo", "as_ptr"])), KnownNames::StdAsPtr);
    assert_eq!(
        KnownNamesCache::get_known_name_for("mycrate", &path(&["Foo", "as_mut_ptr"])),
        KnownNames::StdAsMutPtr
    );
}

#[test]
fn mem_functions_are_known() {
    assert_eq!(KnownNamesCache::get_known_name_for("core", &path(&["mem", "forget"])), KnownNames::StdMemForget);
    assert_eq!(KnownNamesCache::get_known_name_for("std", &path(&["mem", "size_of"])), KnownNames::StdMemSizeOf);
    assert_eq!(
        KnownNamesCache::get_known_name_for("core", &path(&["mem", "uninitialized"])),
        KnownNames::StdMemUninitialized
    );
}

#[test]
fn unknown_crate_or_name_is_not_known() {
    assert_eq!(KnownNamesCache::get_known_name_for("mycrate", &path(&["mem", "forget"])), KnownNames::NotKnown);
    assert_eq!(KnownNamesCache::get_known_name_for("core", &path(&["mem", "swap"])), KnownNames::NotKnown);
    assert_eq!(KnownNamesCache::get_known_name_for("core", &path(&[])), KnownNames::NotKnown);
}

#[test]
fn cache_keeps_first_answer() {
    let mut cache = KnownNamesCache::create_cache_from_language_items();
    let d = DefId { krate: 1, index: 2 };
    let first = cache.get(d, "core", &path(&["mem", "forget"]));
    assert_eq!(first, KnownNames::StdMemForget);
    let second = cache.get(d, "mycrate", &path(&["other"]));
    assert_eq!(second, KnownNames::StdMemForget);
    let other = cache.get(DefId { krate: 2, index: 1 }, "mycrate", &path(&["other"]));
    assert_eq!(other, KnownNames::NotKnown);
}

#[test]
fn def_id_keys_differ() {
    assert_eq!(DefId { krate: 1, index: 2 }.key(), (1u64 << 32) + 2);
    assert_ne!(DefId { krate: 1, index: 2 }.key(), DefId { krate: 2, index: 1 }.key());
}
