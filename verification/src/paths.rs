//! Archive paths: where the prompt and each response fragment of an
//! interaction are filed.

use crate::classify::{directory_for, extension_for, get_directory, get_file_extension};
use crate::classify::{preferred, Structure};
use crate::text::{decimal, lemma_cancel_affixes, lemma_decimal_digits, lemma_decimal_injective};
use crate::text::{lemma_split_at_last, push_decimal};
use vstd::prelude::*;
use vstd::string::StringExecFns;

verus! {

/// The path of the prompt file of the interaction with stem `base`.
pub open spec fn prompt_path(base: Seq<char>) -> Seq<char> {
    "prompts/"@ + base + "_prompt.txt"@
}

/// The path of the file for response fragment number `part` of the
/// interaction with stem `base`, classified as `structure`.
pub open spec fn response_path(structure: Option<Structure>, base: Seq<char>, part: nat) -> Seq<
    char,
> {
    directory_for(structure) + seq!['/'] + base + "_response_"@ + decimal(part) + extension_for(
        structure,
    )
}

/// Computes `prompt_path`.
pub fn build_prompt_path(base: &str) -> (path: String)
    ensures
        path@ == prompt_path(base@),
{
    let mut path = String::from_str("prompts/");
    path.append(base);
    path.append("_prompt.txt");
    path
}

/// Computes `response_path` for a fragment in which `structures` were
/// found.
pub fn build_response_path(structures: &[Structure], base: &str, part: usize) -> (path: String)
    ensures
        path@ == response_path(preferred(structures@), base@, part as nat),
{
    let mut path = String::from_str(get_directory(structures));
    path.push('/');
    path.append(base);
    path.append("_response_");
    push_decimal(&mut path, part);
    path.append(get_file_extension(structures));
    path
}

// ---------------------------------------------------------------------------
// What a path tells
// ---------------------------------------------------------------------------

/// A prompt path tells its stem.
pub proof fn lemma_prompt_path_tells_stem(base: Seq<char>, other_base: Seq<char>)
    requires
        prompt_path(base) == prompt_path(other_base),
    ensures
        base == other_base,
{
    lemma_cancel_affixes("prompts/"@, base, other_base, "_prompt.txt"@);
}

/// Texts of different structure are filed in different folders, and the
/// folder shows in the first character of the path.
pub proof fn lemma_response_path_tells_structure(
    structure: Option<Structure>,
    base: Seq<char>,
    part: nat,
    other_structure: Option<Structure>,
    other_base: Seq<char>,
    other_part: nat,
)
    requires
        response_path(structure, base, part) == response_path(
            other_structure,
            other_base,
            other_part,
        ),
    ensures
        structure == other_structure,
{
    reveal_strlit("python");
    reveal_strlit("javascript");
    reveal_strlit("markdown");
    reveal_strlit("text");
    let path = response_path(structure, base, part);
    let other_path = response_path(other_structure, other_base, other_part);
    assert(path[0] == directory_for(structure)[0]);
    assert(other_path[0] == directory_for(other_structure)[0]);
}

/// A response path tells its stem and the number of its fragment.
pub proof fn lemma_response_path_tells_stem_and_part(
    structure: Option<Structure>,
    base: Seq<char>,
    part: nat,
    other_structure: Option<Structure>,
    other_base: Seq<char>,
    other_part: nat,
)
    requires
        response_path(structure, base, part) == response_path(
            other_structure,
            other_base,
            other_part,
        ),
    ensures
        structure == other_structure,
        base == other_base,
        part == other_part,
{
    lemma_response_path_tells_structure(
        structure,
        base,
        part,
        other_structure,
        other_base,
        other_part,
    );
    reveal_strlit("_response_");
    let label = "_response_"@;
    let opening = label.drop_last();
    let prefix = directory_for(structure) + seq!['/'];
    let suffix = extension_for(structure);
    let middle = (base + opening).push('_') + decimal(part);
    let other_middle = (other_base + opening).push('_') + decimal(other_part);
    assert(response_path(structure, base, part) =~= prefix + middle + suffix);
    assert(response_path(other_structure, other_base, other_part) =~= prefix + other_middle
        + suffix);
    lemma_cancel_affixes(prefix, middle, other_middle, suffix);
    lemma_decimal_digits(part);
    lemma_decimal_digits(other_part);
    lemma_split_at_last(
        base + opening,
        decimal(part),
        other_base + opening,
        decimal(other_part),
        '_',
    );
    lemma_decimal_injective(part, other_part);
    lemma_cancel_affixes(Seq::<char>::empty(), base, other_base, opening);
}

/// No prompt path is a response path: the folders differ within their
/// first two characters.
pub proof fn lemma_prompt_path_is_no_response_path(
    prompt_base: Seq<char>,
    structure: Option<Structure>,
    base: Seq<char>,
    part: nat,
)
    ensures
        prompt_path(prompt_base) != response_path(structure, base, part),
{
    reveal_strlit("prompts/");
    reveal_strlit("python");
    reveal_strlit("javascript");
    reveal_strlit("markdown");
    reveal_strlit("text");
    let prompt = prompt_path(prompt_base);
    let response = response_path(structure, base, part);
    assert(prompt[0] == 'p' && prompt[1] == 'r');
    assert(response[0] == directory_for(structure)[0]);
    assert(response[1] == directory_for(structure)[1]);
}

} // verus!
