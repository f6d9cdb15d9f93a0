//! Sequences: the animation grids, rewritten to positions of processed
//! animations.

use crate::input::SourceInput;
use crate::names::NameMap;
use crate::ordered::{index_map_entries, index_map_get};
use crate::process::Sequence;
use indexmap::IndexMap;
use vstd::prelude::*;

verus! {

/// Why the sequences could not be built.
#[derive(Clone, Copy, Debug, PartialEq, Eq, Structural)]
pub enum ProcessingSequenceError {
    /// There are more than 2147483648 sequences.
    TooManySequences,
}

/// The largest number of sequences that a model may have.
pub const MAX_SEQUENCES: usize = 0x8000_0000;

/// Whether the remap knows the animation of every cell of every sequence, as
/// a position that fits a cell.
pub open spec fn cells_known(input: SourceInput, remap: Map<usize, usize>) -> bool {
    forall|s: int, r: int, c: int|
        0 <= s < input.sequences@.len() && 0 <= r < input.sequences@[s].animations@.len() && 0 <= c
            < input.sequences@[s].animations@[r]@.len() ==> remap.contains_key(
            #[trigger] input.sequences@[s].animations@[r]@[c],
        ) && remap[input.sequences@[s].animations@[r]@[c]] <= i16::MAX
}

/// Whether no two sequences have the same name.
pub open spec fn sequence_names_distinct(input: SourceInput) -> bool {
    forall|s: int, t: int|
        0 <= s < t < input.sequences@.len() ==> (#[trigger] input.sequences@[s]).name@ != (
        #[trigger] input.sequences@[t]).name@
}

/// Whether a processed grid is the input grid with every animation
/// identifier replaced by what the remap gives for it.
pub open spec fn grid_remapped(grid: Seq<Vec<i16>>, input: Seq<Vec<usize>>, remap: Map<
    usize,
    usize,
>) -> bool {
    &&& grid.len() == input.len()
    &&& forall|r: int| 0 <= r < grid.len() ==> (#[trigger] grid[r])@.len() == input[r]@.len()
    &&& forall|r: int, c: int|
        0 <= r < grid.len() && 0 <= c < grid[r]@.len() ==> (#[trigger] grid[r]@[c]) == remap[input[r]@[c]]
}

/// Rewrites one row of a grid.
fn remap_row(row: &Vec<usize>, remapped_animations: &IndexMap<usize, usize>) -> (cells: Vec<i16>)
    requires
        forall|c: int|
            0 <= c < row@.len() ==> index_map_entries(*remapped_animations).contains_key(
                #[trigger] row@[c],
            ) && index_map_entries(*remapped_animations)[row@[c]] <= i16::MAX,
    ensures
        cells@.len() == row@.len(),
        forall|c: int|
            0 <= c < row@.len() ==> (#[trigger] cells@[c]) == index_map_entries(
                *remapped_animations,
            )[row@[c]],
{
    let mut cells: Vec<i16> = Vec::new();
    let mut c: usize = 0;
    while c < row.len()
        invariant
            c <= row@.len(),
            cells@.len() == c,
            forall|i: int|
                0 <= i < row@.len() ==> index_map_entries(*remapped_animations).contains_key(
                    #[trigger] row@[i],
                ) && index_map_entries(*remapped_animations)[row@[i]] <= i16::MAX,
            forall|i: int|
                0 <= i < c ==> (#[trigger] cells@[i]) == index_map_entries(
                    *remapped_animations,
                )[row@[i]],
        decreases row@.len() - c,
    {
        let position: usize = match index_map_get(remapped_animations, row[c]) {
            Some(position) => position,
            None => vstd::pervasive::unreached(),
        };
        cells.push(position as i16);
        c += 1;
    }
    cells
}

/// Builds the sequences of a model: each grid has the shape of the input
/// grid, and each cell holds the position of the processed animation that
/// the input cell names.
pub fn process_sequences(input_data: &SourceInput, remapped_animations: &IndexMap<usize, usize>) -> (processed:
    Result<NameMap<Sequence>, ProcessingSequenceError>)
    requires
        sequence_names_distinct(*input_data),
        cells_known(*input_data, index_map_entries(*remapped_animations)),
    ensures
        match processed {
            Ok(sequences) => {
                &&& input_data.sequences@.len() <= MAX_SEQUENCES
                &&& sequences.well_formed()
                &&& sequences.names().len() == input_data.sequences@.len()
                &&& forall|s: int|
                    0 <= s < input_data.sequences@.len() ==> (#[trigger] sequences.names()[s])
                        == input_data.sequences@[s].name@ && grid_remapped(
                        sequences.values()[s].animations@,
                        input_data.sequences@[s].animations@,
                        index_map_entries(*remapped_animations),
                    )
            },
            Err(error) => error == ProcessingSequenceError::TooManySequences
                && input_data.sequences@.len() > MAX_SEQUENCES,
        },
{
    let mut sequences: NameMap<Sequence> = NameMap::new();
    let ghost remap = index_map_entries(*remapped_animations);
    let mut s: usize = 0;
    while s < input_data.sequences.len()
        invariant
            s <= input_data.sequences@.len(),
            remap == index_map_entries(*remapped_animations),
            sequence_names_distinct(*input_data),
            cells_known(*input_data, remap),
            sequences.well_formed(),
            sequences.names().len() == s,
            forall|i: int|
                0 <= i < s ==> (#[trigger] sequences.names()[i]) == input_data.sequences@[i].name@
                    && grid_remapped(
                    sequences.values()[i].animations@,
                    input_data.sequences@[i].animations@,
                    remap,
                ),
        decreases input_data.sequences@.len() - s,
    {
        let sequence = &input_data.sequences[s];
        let mut grid: Vec<Vec<i16>> = Vec::new();
        let mut r: usize = 0;
        while r < sequence.animations.len()
            invariant
                r <= sequence.animations@.len(),
                s < input_data.sequences@.len(),
                *sequence == input_data.sequences@[s as int],
                remap == index_map_entries(*remapped_animations),
                cells_known(*input_data, remap),
                grid@.len() == r,
                forall|i: int|
                    0 <= i < r ==> (#[trigger] grid@[i])@.len() == sequence.animations@[i]@.len(),
                forall|i: int, c: int|
                    0 <= i < r && 0 <= c < grid@[i]@.len() ==> (#[trigger] grid@[i]@[c])
                        == remap[sequence.animations@[i]@[c]],
            decreases sequence.animations@.len() - r,
        {
            let row = &sequence.animations[r];
            proof {
                assert forall|c: int| 0 <= c < row@.len() implies remap.contains_key(
                    #[trigger] row@[c],
                ) && remap[row@[c]] <= i16::MAX by {
                    assert(row@[c] == input_data.sequences@[s as int].animations@[r as int]@[c]);
                }
            }
            let cells = remap_row(row, remapped_animations);
            grid.push(cells);
            r += 1;
        }
        proof {
            let names = sequences.names();
            if names.contains(sequence.name@) {
                let i = choose|i: int| 0 <= i < names.len() && names[i] == sequence.name@;
                assert(input_data.sequences@[i].name@ == input_data.sequences@[s as int].name@);
            }
        }
        let ghost before_names = sequences.names();
        let ghost before_values = sequences.values();
        let _ = sequences.insert_full(sequence.name.clone(), Sequence { animations: grid });
        proof {
            assert forall|i: int| 0 <= i < s + 1 implies (#[trigger] sequences.names()[i])
                == input_data.sequences@[i].name@ && grid_remapped(
                sequences.values()[i].animations@,
                input_data.sequences@[i].animations@,
                remap,
            ) by {
                if i < s {
                    assert(sequences.names()[i] == before_names[i]);
                    assert(sequences.values()[i] == before_values[i]);
                }
            }
        }
        s += 1;
    }
    if sequences.len() > MAX_SEQUENCES {
        return Err(ProcessingSequenceError::TooManySequences);
    }
    Ok(sequences)
}

} // verus!
