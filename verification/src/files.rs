//! Shader files by their names.

use vstd::prelude::*;
use vstd::string::{StrSliceExecFns, StringExecFns};

verus! {

/// What a shader file holds, as its name tells.
#[derive(Debug, Clone, Copy, PartialEq, Eq, Structural, Hash)]
pub enum YkFileKind {
    /// A container with a vertex stage and a fragment stage, `.fxo`.
    FXO,
    /// A vertex-stage block alone, `.vso`.
    VSO,
    /// A fragment-stage block alone, `.pso`.
    PSO,
}

/// `name` ends with `ending`.
pub open spec fn ends_with(name: Seq<char>, ending: Seq<char>) -> bool {
    name.len() >= ending.len() && name.skip(name.len() - ending.len()) == ending
}

/// What a file of the given name holds; nothing where the name ends in none
/// of the three extensions.
pub open spec fn kind_of(name: Seq<char>) -> Option<YkFileKind> {
    if ends_with(name, ".fxo"@) {
        Some(YkFileKind::FXO)
    } else if ends_with(name, ".vso"@) {
        Some(YkFileKind::VSO)
    } else if ends_with(name, ".pso"@) {
        Some(YkFileKind::PSO)
    } else {
        None
    }
}

fn has_ending(name: &str, ending: &str) -> (b: bool)
    ensures
        b == ends_with(name@, ending@),
{
    let n = name.unicode_len();
    let m = ending.unicode_len();
    if n < m {
        return false;
    }
    let start = n - m;
    let mut i: usize = 0;
    while i < m
        invariant
            i <= m,
            m <= n,
            start == n - m,
            n == name@.len(),
            m == ending@.len(),
            forall|k: int| 0 <= k < i ==> name@[start + k] == ending@[k],
        decreases m - i,
    {
        if name.get_char(start + i) != ending.get_char(i) {
            assert(name@.skip(n - m)[i as int] != ending@[i as int]);
            return false;
        }
        i = i + 1;
    }
    assert(name@.skip(n - m) =~= ending@);
    true
}

impl YkFileKind {
    /// What a file of the given name holds.
    pub fn of(file_name: &str) -> (kind: Option<YkFileKind>)
        ensures
            kind == kind_of(file_name@),
    {
        if has_ending(file_name, ".fxo") {
            Some(YkFileKind::FXO)
        } else if has_ending(file_name, ".vso") {
            Some(YkFileKind::VSO)
        } else if has_ending(file_name, ".pso") {
            Some(YkFileKind::PSO)
        } else {
            None
        }
    }
}

/// `at` is the place of the first dot in `name`.
pub open spec fn first_dot(name: Seq<char>, at: int) -> bool {
    &&& 0 <= at < name.len()
    &&& name[at] == '.'
    &&& forall|k: int| 0 <= k < at ==> name[k] != '.'
}

/// The name of the shader that a file of the given name holds: what stands
/// before the first dot. A file name without a dot names no shader.
pub fn path_to_shader_name(file_name: &str) -> (name: String)
    requires
        file_name@.contains('.'),
    ensures
        first_dot(file_name@, name@.len() as int),
        name@ == file_name@.take(name@.len() as int),
{
    let n = file_name.unicode_len();
    let mut i: usize = 0;
    while i < n && file_name.get_char(i) != '.'
        invariant
            i <= n,
            n == file_name@.len(),
            forall|k: int| 0 <= k < i ==> file_name@[k] != '.',
        decreases n - i,
    {
        i = i + 1;
    }
    proof {
        let k = choose|k: int| 0 <= k < file_name@.len() && file_name@[k] == '.';
        assert(i <= k);
    }
    let stem = file_name.substring_char(0, i);
    assert(stem@ =~= file_name@.take(i as int));
    String::from_str(stem)
}

} // verus!
