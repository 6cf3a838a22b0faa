//! Recognition of MIDI files by name.

use vstd::prelude::*;

use crate::text::{
    all_ascii, ascii_lower_all, ends_with, finishes_with, lowercase, to_chars, to_lowercase,
};

verus! {

/// Whether a name, in lower case, is that of a MIDI file.
pub open spec fn has_midi_suffix(lowered: Seq<char>) -> bool {
    finishes_with(lowered, ".mid"@) || finishes_with(lowered, ".midi"@)
}

/// Tests whether a name that is in lower case already is that of a MIDI file.
pub fn is_midi_lowered(lowered: &str) -> (r: bool)
    ensures
        r == has_midi_suffix(lowered@),
{
    let chars: Vec<char> = to_chars(lowered);
    ends_with(chars.as_slice(), ".mid") || ends_with(chars.as_slice(), ".midi")
}

/// Tests whether a path names a MIDI file, in whatever case.
pub fn is_midi_path(path: &str) -> (r: bool)
    ensures
        r == has_midi_suffix(lowercase(path@)),
        all_ascii(path@) ==> r == has_midi_suffix(ascii_lower_all(path@)),
{
    let lowered: String = to_lowercase(path);
    is_midi_lowered(lowered.as_str())
}

/// Files of notes are told by one of two endings of their name.
pub proof fn law_midi_files_are_told_by_their_ending(name: Seq<char>)
    ensures
        has_midi_suffix(name + seq!['.', 'm', 'i', 'd']),
        has_midi_suffix(name + seq!['.', 'm', 'i', 'd', 'i']),
        name.len() > 0 && name.last() != 'd' && name.last() != 'i' ==> !has_midi_suffix(name),
{
    reveal_strlit(".mid");
    reveal_strlit(".midi");
    assert(".mid"@ =~= seq!['.', 'm', 'i', 'd']);
    assert(".midi"@ =~= seq!['.', 'm', 'i', 'd', 'i']);
    let a = name + ".mid"@;
    let b = name + ".midi"@;
    assert(a.subrange(a.len() - 4, a.len() as int) =~= ".mid"@);
    assert(b.subrange(b.len() - 5, b.len() as int) =~= ".midi"@);
    let n = name.len() as int;
    if n >= 4 {
        assert(name.subrange(n - 4, n)[3] == name.last());
        assert(".mid"@[3] == 'd');
    }
    if n >= 5 {
        assert(name.subrange(n - 5, n)[4] == name.last());
        assert(".midi"@[4] == 'i');
    }
}

} // verus!
