//! What the image of the firmware tells of its log statements.

use crate::locations::{places_view, select_locations, shown_of, Location, LocationInfo, Locations};
use vstd::prelude::*;

verus! {

/// `anyhow::Error`, in which the decoder of `defmt` tells its failures. The
/// library hands such an error on and never looks into it.
#[verifier::external_type_specification]
#[verifier::external_body]
pub struct ExDecoderError(anyhow::Error);

/// `defmt_decoder::Table`: the table of log statements that the decoder
/// reads the frames with. The library hands it on and never looks into it.
#[verifier::external_type_specification]
#[verifier::external_body]
pub struct ExTable(defmt_decoder::Table);

/// Why the image of the firmware could not be read.
pub enum InfoError {
    /// The table of log statements could not be read.
    Table(anyhow::Error),
    /// The places of the log statements could not be read.
    Locations(anyhow::Error),
}

/// What `defmt_decoder::Table::parse_ignore_version` finds in an image of
/// the firmware: nothing where it fails, no table where the image holds none,
/// and the table otherwise.
pub uninterp spec fn image_table(elf_bytes: Seq<u8>) -> Option<Option<defmt_decoder::Table>>;

/// What `defmt_decoder::Table::parse` finds in an image of the firmware:
/// what [`image_table`] tells, but for a table that was written for another
/// version of `defmt` than the decoder reads, where it is nothing. Which
/// version the decoder reads is fixed when the decoder is built.
pub uninterp spec fn checked_table(elf_bytes: Seq<u8>) -> Option<Option<defmt_decoder::Table>>;

/// What `defmt_decoder::Table::get_locations` finds in an image of the
/// firmware for a table of log statements: nothing where it fails, and
/// otherwise the place of each log statement that the debug information
/// tells, under the index of the statement, as the path of the file, the
/// line and the path of the module.
pub uninterp spec fn image_places(table: defmt_decoder::Table, elf_bytes: Seq<u8>) -> Option<
    Map<u64, (Seq<char>, u64, Seq<char>)>,
>;

/// The indices of the log statements that a table holds, as
/// `defmt_decoder::Table::indices` hands them out.
pub uninterp spec fn table_statements(table: defmt_decoder::Table) -> Seq<u64>;

/// Whether a table holds no entry at all, as `defmt_decoder::Table::is_empty`
/// tells.
pub uninterp spec fn table_is_void(table: defmt_decoder::Table) -> bool;

/// `defmt_decoder::Table::parse`: reads the table of log statements from the
/// image of the firmware, if the image holds one, and checks that it was
/// written for the version of `defmt` that the decoder reads. What it finds
/// depends on the bytes of the image alone, and is named [`checked_table`].
/// It differs from `parse_ignore_version` by that check alone, which comes
/// after an image without a table has been answered: so what it finds is
/// what the other finds, and it fails on no image in which the other finds
/// that there is no table.
#[verifier::external_body]
fn parse_table(elf_bytes: &[u8]) -> (r: Result<Option<defmt_decoder::Table>, anyhow::Error>)
    ensures
        match r {
            Ok(found) => checked_table(elf_bytes@) == Some(found) && image_table(elf_bytes@)
                == Some(found),
            Err(_) => checked_table(elf_bytes@) is None && image_table(elf_bytes@) != Some(
                None::<defmt_decoder::Table>,
            ),
        },
{
    defmt_decoder::Table::parse(elf_bytes)
}

/// `defmt_decoder::Table::parse_ignore_version`: reads the table of log
/// statements from the image of the firmware, if the image holds one,
/// whatever version it was written for. What it finds depends on the bytes
/// of the image alone, and is named [`image_table`].
#[verifier::external_body]
fn parse_table_ignore_version(elf_bytes: &[u8]) -> (r: Result<
    Option<defmt_decoder::Table>,
    anyhow::Error,
>)
    ensures
        match r {
            Ok(found) => image_table(elf_bytes@) == Some(found),
            Err(_) => image_table(elf_bytes@) is None,
        },
{
    defmt_decoder::Table::parse_ignore_version(elf_bytes)
}

/// `defmt_decoder::Table::get_locations`: reads the places of the log
/// statements from the debug information of the image. What it finds depends
/// on the table and the bytes of the image alone, and is named
/// [`image_places`]; each place comes as a [`Location`] with the same path,
/// line and module.
#[verifier::external_body]
fn table_locations(table: &defmt_decoder::Table, elf_bytes: &[u8]) -> (r: Result<
    Locations,
    anyhow::Error,
>)
    ensures
        match r {
            Ok(found) => image_places(*table, elf_bytes@) == Some(places_view(found@)),
            Err(_) => image_places(*table, elf_bytes@) is None,
        },
{
    let found = table.get_locations(elf_bytes)?;
    Ok(
        found.into_iter().map(
            |(index, l)| (
                index,
                Location { file: l.file.display().to_string(), line: l.line, module: l.module },
            ),
        ).collect(),
    )
}

/// `defmt_decoder::Table::indices`: the indices of the log statements of the
/// table, in the order in which the table hands them out. They depend on the
/// table alone, and are named [`table_statements`].
#[verifier::external_body]
fn table_indices(table: &defmt_decoder::Table) -> (r: Vec<u64>)
    ensures
        r@ == table_statements(*table),
{
    table.indices().map(|index| index as u64).collect()
}

/// `defmt_decoder::Table::is_empty`: whether the table holds no entry. The
/// answer depends on the table alone, and is named [`table_is_void`].
#[verifier::external_body]
fn table_is_empty(table: &defmt_decoder::Table) -> (r: bool)
    ensures
        r == table_is_void(*table),
{
    table.is_empty()
}

/// What is found of a table in an image of the firmware: with
/// `ignore_version` whatever version the table was written for, without it
/// only a table of the version that the decoder reads.
pub open spec fn found_table(elf_bytes: Seq<u8>, ignore_version: bool) -> Option<
    Option<defmt_decoder::Table>,
> {
    if ignore_version {
        image_table(elf_bytes)
    } else {
        checked_table(elf_bytes)
    }
}

/// What reading an image of the firmware comes to.
///
/// An image in which no table of log statements is found yields nothing.
/// Where a table is found, the outcome holds it, together with what is to be
/// shown of the places that the debug information tells for it: places are
/// shown only where every log statement of the table has one. Reading fails
/// exactly where the table cannot be read, which without `ignore_version` is
/// also where it was written for another version, and where the places
/// cannot be read. The check of the version takes nothing from what is
/// found otherwise, and refuses no image without a table.
pub open spec fn is_info_of(
    r: Result<Option<(defmt_decoder::Table, LocationInfo)>, InfoError>,
    elf_bytes: Seq<u8>,
    ignore_version: bool,
) -> bool {
    match r {
        Ok(None) => found_table(elf_bytes, ignore_version) == Some(None::<defmt_decoder::Table>)
            && image_table(elf_bytes) == Some(None::<defmt_decoder::Table>),
        Ok(Some((table, info))) => found_table(elf_bytes, ignore_version) == Some(Some(table))
            && image_table(elf_bytes) == Some(Some(table)) && match image_places(table, elf_bytes) {
            Some(places) => info@ == shown_of(
                table_is_void(table),
                table_statements(table),
                places,
            ),
            None => false,
        },
        Err(InfoError::Table(_)) => found_table(elf_bytes, ignore_version) is None && image_table(
            elf_bytes,
        ) != Some(None::<defmt_decoder::Table>),
        Err(InfoError::Locations(_)) => match found_table(elf_bytes, ignore_version) {
            Some(Some(table)) => image_table(elf_bytes) == Some(Some(table)) && image_places(
                table,
                elf_bytes,
            ) is None,
            _ => false,
        },
    }
}

/// Reads from the image of the firmware the table of log statements and what
/// may be shown of their places. An image without such a table yields
/// nothing.
///
/// With `ignore_version` the table is taken whatever version of `defmt` it
/// was written for; without it, a table of another version than the decoder
/// reads is an error.
pub fn extract_defmt_info(elf_bytes: &[u8], ignore_version: bool) -> (r: Result<
    Option<(defmt_decoder::Table, LocationInfo)>,
    InfoError,
>)
    ensures
        is_info_of(r, elf_bytes@, ignore_version),
{
    let parsed = if ignore_version {
        parse_table_ignore_version(elf_bytes)
    } else {
        parse_table(elf_bytes)
    };
    let table = match parsed {
        Ok(Some(table)) => table,
        Ok(None) => {
            return Ok(None);
        },
        Err(e) => {
            return Err(InfoError::Table(e));
        },
    };
    let found = match table_locations(&table, elf_bytes) {
        Ok(found) => found,
        Err(e) => {
            return Err(InfoError::Locations(e));
        },
    };
    let empty = table_is_empty(&table);
    let indices = table_indices(&table);
    let info = select_locations(empty, &indices, found);
    Ok(Some((table, info)))
}

} // verus!
