//! What holds of bundles that are made from ZIP archives.

use crate::archive::{
    archive_entries, entry_index, entry_names, file_bytes, find_entry,
    lemma_entry_index, ContentView, EntryView,
};
use crate::assemble::{boot_mapping, placed};
use crate::bundle::Bundle;
use crate::chip::{Chip, FlashSize, Params};
use crate::fault::Fault;
use crate::image::{ImageType, ImageView};
use crate::loader::BundleType;
use crate::pool::latest;
use crate::table::{text_rows, TableView};
use crate::tools::Tools;
use crate::unpack::{efuses_of_files, files_below, is_file_below, part_table_of_archive};
use vstd::prelude::*;
use vstd::string::*;

verus! {

/// Whether a bundle has use for a file with this name.
pub open spec fn is_bundle_file(name: Seq<char>) -> bool {
    ||| name == Bundle::PARAMS_FILE_NAME@
    ||| name == Bundle::PART_TABLE_FILE_NAME@
    ||| name == Bundle::BOOTLOADER_FILE_NAME@
    ||| is_file_below(name, Bundle::IMAGES_PREFIX@)
    ||| is_file_below(name, Bundle::EFUSES_PREFIX@)
}

/// The entries of an archive that a bundle has use for, in their order.
pub open spec fn bundle_entries(entries: Seq<EntryView>) -> Seq<EntryView> {
    entries.filter(|entry: EntryView| is_bundle_file(entry.name))
}

/// Loading a file that a bundle has use for comes to the same among the entries that it
/// has use for.
proof fn lemma_bundle_file(entries: Seq<EntryView>, name: Seq<char>)
    requires
        is_bundle_file(name),
    ensures
        find_entry(bundle_entries(entries), name) == find_entry(entries, name),
        entry_index(bundle_entries(entries), name) is Some <==> entry_index(
            entries,
            name,
        ) is Some,
    decreases entries.len(),
{
    reveal(Seq::filter);
    if entries.len() > 0 {
        let head = entries.drop_last();
        let kept = bundle_entries(head);
        lemma_bundle_file(head, name);
        lemma_entry_index(head, name);
        lemma_entry_index(kept, name);
        if is_bundle_file(entries.last().name) {
            assert(bundle_entries(entries) == kept.push(entries.last()));
            assert(kept.push(entries.last()).drop_last() =~= kept);
        }
    }
}

proof fn lemma_bundle_names(entries: Seq<EntryView>, prefix: Seq<char>)
    requires
        prefix == Bundle::IMAGES_PREFIX@ || prefix == Bundle::EFUSES_PREFIX@,
    ensures
        files_below(entry_names(bundle_entries(entries)), prefix) == files_below(
            entry_names(entries),
            prefix,
        ),
    decreases entries.len(),
{
    reveal(Seq::filter);
    if entries.len() > 0 {
        let head = entries.drop_last();
        let kept = bundle_entries(head);
        lemma_bundle_names(head, prefix);
        assert(entry_names(entries).drop_last() =~= entry_names(head));
        if is_bundle_file(entries.last().name) {
            let names = entry_names(kept.push(entries.last()));
            assert(names.drop_last() =~= entry_names(kept));
            assert(names.last() == entries.last().name);
        }
    } else {
        assert(bundle_entries(entries) =~= entries);
    }
}

/// Files below a prefix are below it.
proof fn lemma_below(names: Seq<Seq<char>>, prefix: Seq<char>)
    ensures
        forall|i: int|
            0 <= i < files_below(names, prefix).len() ==> is_file_below(
                #[trigger] files_below(names, prefix)[i],
                prefix,
            ),
    decreases names.len(),
{
    if names.len() > 0 {
        let rest = files_below(names.drop_last(), prefix);
        let files = files_below(names, prefix);
        lemma_below(names.drop_last(), prefix);
        assert forall|i: int| 0 <= i < files.len() implies is_file_below(
            #[trigger] files[i],
            prefix,
        ) by {
            if i < rest.len() {
                assert(files[i] == rest[i]);
            }
        }
    }
}

proof fn lemma_same_efuses(
    a: Seq<EntryView>,
    b: Seq<EntryView>,
    files: Seq<Seq<char>>,
)
    requires
        forall|i: int|
            0 <= i < files.len() ==> file_bytes(a, #[trigger] files[i]) == file_bytes(b, files[i]),
    ensures
        efuses_of_files(a, files) == efuses_of_files(b, files),
    decreases files.len(),
{
    if files.len() > 0 {
        let head = files.drop_last();
        assert(files.last() == files[files.len() - 1]);
        assert forall|i: int| 0 <= i < head.len() implies file_bytes(a, #[trigger] head[i])
            == file_bytes(b, head[i]) by {
            assert(head[i] == files[i]);
        }
        lemma_same_efuses(a, b, head);
    }
}

proof fn lemma_same_images<F, G, P>(
    tools: Tools<F, G, P>,
    chip: Chip,
    a: Seq<EntryView>,
    b: Seq<EntryView>,
    files: Seq<Seq<char>>,
) where
    F: Fn(&[u8], Chip) -> Result<Vec<u8>, String>,
    G: Fn(Chip, Option<FlashSize>) -> Result<Vec<u8>, String>,
    P: Fn(&str) -> Result<Params, String>,

    requires
        forall|i: int|
            0 <= i < files.len() ==> file_bytes(a, #[trigger] files[i]) == file_bytes(b, files[i]),
    ensures
        tools.images_of_files(chip, a, files) == tools.images_of_files(chip, b, files),
    decreases files.len(),
{
    if files.len() > 0 {
        let head = files.drop_last();
        assert(files.last() == files[files.len() - 1]);
        assert forall|i: int| 0 <= i < head.len() implies file_bytes(a, #[trigger] head[i])
            == file_bytes(b, head[i]) by {
            assert(head[i] == files[i]);
        }
        lemma_same_images(tools, chip, a, b, head);
    }
}

/// Archives with the same partition table, bootloader, image and efuse files come to the
/// same parts, where they come to the same parameters.
proof fn lemma_same_parts<F, G, P>(
    tools: Tools<F, G, P>,
    a: Seq<EntryView>,
    default_a: Option<Params>,
    b: Seq<EntryView>,
    default_b: Option<Params>,
) where
    F: Fn(&[u8], Chip) -> Result<Vec<u8>, String>,
    G: Fn(Chip, Option<FlashSize>) -> Result<Vec<u8>, String>,
    P: Fn(&str) -> Result<Params, String>,

    requires
        tools.params_in(a, default_a) == tools.params_in(b, default_b),
        forall|name: Seq<char>|
            is_bundle_file(name) && name != Bundle::PARAMS_FILE_NAME@ ==> #[trigger] find_entry(
                a,
                name,
            ) == find_entry(b, name),
        files_below(entry_names(a), Bundle::IMAGES_PREFIX@) == files_below(
            entry_names(b),
            Bundle::IMAGES_PREFIX@,
        ),
        files_below(entry_names(a), Bundle::EFUSES_PREFIX@) == files_below(
            entry_names(b),
            Bundle::EFUSES_PREFIX@,
        ),
    ensures
        tools.unpacked(a, default_a) == tools.unpacked(b, default_b),
{
    lemma_names_differ();
    let images = files_below(entry_names(a), Bundle::IMAGES_PREFIX@);
    let efuses = files_below(entry_names(a), Bundle::EFUSES_PREFIX@);
    lemma_below(entry_names(a), Bundle::IMAGES_PREFIX@);
    lemma_below(entry_names(a), Bundle::EFUSES_PREFIX@);
    assert(find_entry(a, Bundle::PART_TABLE_FILE_NAME@) == find_entry(
        b,
        Bundle::PART_TABLE_FILE_NAME@,
    ));
    assert(find_entry(a, Bundle::BOOTLOADER_FILE_NAME@) == find_entry(
        b,
        Bundle::BOOTLOADER_FILE_NAME@,
    ));
    assert forall|i: int| 0 <= i < images.len() implies file_bytes(a, #[trigger] images[i])
        == file_bytes(b, images[i]) by {
        assert(is_file_below(images[i], Bundle::IMAGES_PREFIX@));
        assert(find_entry(a, images[i]) == find_entry(b, images[i]));
    }
    assert forall|i: int| 0 <= i < efuses.len() implies file_bytes(a, #[trigger] efuses[i])
        == file_bytes(b, efuses[i]) by {
        assert(is_file_below(efuses[i], Bundle::EFUSES_PREFIX@));
        assert(find_entry(a, efuses[i]) == find_entry(b, efuses[i]));
    }
    if let Ok(params) = tools.params_in(a, default_a) {
        lemma_same_images(tools, params.chip, a, b, images);
    }
    lemma_same_efuses(a, b, efuses);
}

/// The names of the files of a bundle differ, and no file below a prefix is the one with
/// the parameters.
proof fn lemma_names_differ()
    ensures
        Bundle::PARAMS_FILE_NAME@ != Bundle::PART_TABLE_FILE_NAME@,
        Bundle::PARAMS_FILE_NAME@ != Bundle::BOOTLOADER_FILE_NAME@,
        !is_file_below(Bundle::PARAMS_FILE_NAME@, Bundle::IMAGES_PREFIX@),
        !is_file_below(Bundle::PARAMS_FILE_NAME@, Bundle::EFUSES_PREFIX@),
{
    reveal_strlit("params.toml");
    reveal_strlit("partition-table.csv");
    reveal_strlit("bootloader.bin");
    reveal_strlit("images/");
    reveal_strlit("efuses/");
    assert(Bundle::PARAMS_FILE_NAME@.len() == 11);
    assert(Bundle::PART_TABLE_FILE_NAME@.len() == 19);
    assert(Bundle::BOOTLOADER_FILE_NAME@.len() == 14);
    if Bundle::IMAGES_PREFIX@.is_prefix_of(Bundle::PARAMS_FILE_NAME@) {
        assert(Bundle::IMAGES_PREFIX@[0] == Bundle::PARAMS_FILE_NAME@.subrange(0, 7)[0]);
    }
    if Bundle::EFUSES_PREFIX@.is_prefix_of(Bundle::PARAMS_FILE_NAME@) {
        assert(Bundle::EFUSES_PREFIX@[0] == Bundle::PARAMS_FILE_NAME@.subrange(0, 7)[0]);
    }
}

/// Files that a bundle has no use for do not matter: archives that differ in no other
/// files make the same bundle, or fail in the same way.
pub proof fn law_other_files<F, G, P>(
    tools: Tools<F, G, P>,
    name: Seq<char>,
    default_params: Option<Params>,
    a: Seq<EntryView>,
    b: Seq<EntryView>,
    supply_default_part_table: bool,
    supply_default_bootloader: bool,
) where
    F: Fn(&[u8], Chip) -> Result<Vec<u8>, String>,
    G: Fn(Chip, Option<FlashSize>) -> Result<Vec<u8>, String>,
    P: Fn(&str) -> Result<Params, String>,

    requires
        bundle_entries(a) == bundle_entries(b),
    ensures
        tools.zipped(
            name,
            default_params,
            a,
            supply_default_part_table,
            supply_default_bootloader,
        ) == tools.zipped(
            name,
            default_params,
            b,
            supply_default_part_table,
            supply_default_bootloader,
        ),
        tools.zip_has_place(default_params, a, supply_default_bootloader) == tools.zip_has_place(
            default_params,
            b,
            supply_default_bootloader,
        ),
{
    assert forall|file: Seq<char>| is_bundle_file(file) implies #[trigger] find_entry(a, file)
        == find_entry(b, file) by {
        lemma_bundle_file(a, file);
        lemma_bundle_file(b, file);
    }
    assert(find_entry(a, Bundle::PARAMS_FILE_NAME@) == find_entry(b, Bundle::PARAMS_FILE_NAME@));
    lemma_bundle_names(a, Bundle::IMAGES_PREFIX@);
    lemma_bundle_names(b, Bundle::IMAGES_PREFIX@);
    lemma_bundle_names(a, Bundle::EFUSES_PREFIX@);
    lemma_bundle_names(b, Bundle::EFUSES_PREFIX@);
    lemma_same_parts(tools, a, default_params, b, default_params);
}

/// A default never replaces a file of the archive: with a partition table and a
/// bootloader in it, it does not matter which defaults are to be supplied. The bootloader
/// is the one in the archive, and the partitions are those of the table in it.
pub proof fn law_provided_files_stay<F, G, P>(
    tools: Tools<F, G, P>,
    name: Seq<char>,
    default_params: Option<Params>,
    entries: Seq<EntryView>,
    a: (bool, bool),
    b: (bool, bool),
) where
    F: Fn(&[u8], Chip) -> Result<Vec<u8>, String>,
    G: Fn(Chip, Option<FlashSize>) -> Result<Vec<u8>, String>,
    P: Fn(&str) -> Result<Params, String>,

    requires
        entry_index(entries, Bundle::PART_TABLE_FILE_NAME@) is Some,
        entry_index(entries, Bundle::BOOTLOADER_FILE_NAME@) is Some,
    ensures
        tools.zipped(name, default_params, entries, a.0, a.1) == tools.zipped(
            name,
            default_params,
            entries,
            b.0,
            b.1,
        ),
        tools.zip_has_place(default_params, entries, a.1) == tools.zip_has_place(
            default_params,
            entries,
            b.1,
        ),
        tools.zipped(name, default_params, entries, a.0, a.1) matches Ok(bundle) ==> {
            let text = part_table_of_archive(entries)->Ok_0->0;
            let rows = text_rows(text)->Ok_0;
            let bytes = file_bytes(entries, Bundle::BOOTLOADER_FILE_NAME@)->Ok_0->0;
            &&& text_rows(text) is Ok
            &&& bundle.parts.len() >= rows.len() + 2
            &&& bundle.parts[0].image == Some(
                ImageView::fresh(Bundle::BOOTLOADER_NAME@, ImageType::Binary, bytes),
            )
            &&& bundle.parts[0].partition->0.name == Bundle::BOOTLOADER_NAME@
            &&& forall|i: int|
                0 <= i < rows.len() ==> (#[trigger] bundle.parts[i + 2]).partition == Some(rows[i])
        },
{
    if tools.unpacked(entries, default_params) is Ok {
        let parts = tools.unpacked(entries, default_params)->Ok_0;
        assert(parts.part_table is Some);
        assert(parts.bootloader is Some);
        if let Ok(bundle) = tools.zipped(name, default_params, entries, a.0, a.1) {
            let rows = text_rows(parts.part_table->0)->Ok_0;
            let table = TableView::of_rows(rows);
            let pool = latest(parts.images);
            assert(bundle.parts[0] == boot_mapping(
                parts.params,
                Some(table),
                parts.bootloader->0,
            ));
            assert forall|i: int| 0 <= i < rows.len() implies (
            #[trigger] bundle.parts[i + 2]).partition == Some(rows[i]) by {
                assert(bundle.parts[i + 2] == placed(rows, pool)[i]);
            }
        }
    }
}

/// Without a file with parameters, a ZIP archive makes the bundle that it makes with one
/// that writes the default parameters.
pub proof fn law_default_params<F, G, P>(
    tools: Tools<F, G, P>,
    name: Seq<char>,
    default_params: Params,
    entries: Seq<EntryView>,
    written: ContentView,
    supply_default_part_table: bool,
    supply_default_bootloader: bool,
) where
    F: Fn(&[u8], Chip) -> Result<Vec<u8>, String>,
    G: Fn(Chip, Option<FlashSize>) -> Result<Vec<u8>, String>,
    P: Fn(&str) -> Result<Params, String>,

    requires
        entry_index(entries, Bundle::PARAMS_FILE_NAME@) is None,
        written.text is Ok,
        tools.params_of(written.text->Ok_0) == Ok::<Params, Fault<Seq<char>>>(default_params),
    ensures
        tools.zipped(
            name,
            Some(default_params),
            entries,
            supply_default_part_table,
            supply_default_bootloader,
        ) == tools.zipped(
            name,
            None,
            entries.push((EntryView { name: Bundle::PARAMS_FILE_NAME@, opened: Ok(written) })),
            supply_default_part_table,
            supply_default_bootloader,
        ),
{
    let params_name = Bundle::PARAMS_FILE_NAME@;
    let more = entries.push(EntryView { name: params_name, opened: Ok(written) });
    lemma_names_differ();
    assert(more.drop_last() =~= entries);
    assert(entry_names(more).drop_last() =~= entry_names(entries));
    assert(entry_names(more).last() == params_name);
    assert forall|file: Seq<char>|
        is_bundle_file(file) && file != params_name implies #[trigger] find_entry(entries, file)
        == find_entry(more, file) by {
        lemma_entry_index(entries, file);
    }
    assert(find_entry(more, params_name) == Some(more.last()));
    lemma_same_parts(tools, entries, Some(default_params), more, None);
}

/// A bundle made from a ZIP archive without a file with parameters has the default ones,
/// and so have all bundles made from app images.
pub proof fn law_created_params<F, G, P>(
    tools: Tools<F, G, P>,
    name: Seq<char>,
    default_params: Params,
    content: Seq<u8>,
    supply_default_part_table: bool,
    supply_default_bootloader: bool,
) where
    F: Fn(&[u8], Chip) -> Result<Vec<u8>, String>,
    G: Fn(Chip, Option<FlashSize>) -> Result<Vec<u8>, String>,
    P: Fn(&str) -> Result<Params, String>,

    requires
        BundleType::spec_of_name(name) == Some(BundleType::Complete) && archive_entries(
            content,
        ) is Ok ==> entry_index(
            archive_entries(content)->Ok_0,
            Bundle::PARAMS_FILE_NAME@,
        ) is None,
    ensures
        tools.created(
            name,
            default_params,
            content,
            supply_default_part_table,
            supply_default_bootloader,
        ) matches Ok(bundle) ==> bundle.params == default_params,
{
}

} // verus!
