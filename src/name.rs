use vstd::prelude::*;

use crate::error::AmlError;

verus! {

/// Marks a path anchored at the namespace root.
pub const ROOT_CHAR: u8 = 0x5c;

/// Each leading one pops a segment off the current scope.
pub const PARENT_PREFIX_CHAR: u8 = 0x5e;

/// The empty name path.
pub const NULL_NAME: u8 = 0x00;

/// Introduces a path of two name segments.
pub const DUAL_NAME_PREFIX: u8 = 0x2e;

/// Introduces a path of a counted number of name segments.
pub const MULTI_NAME_PREFIX: u8 = 0x2f;

/// Uppercase ASCII letter or underscore.
pub open spec fn spec_is_lead_name_char(b: u8) -> bool {
    (0x41 <= b && b <= 0x5a) || b == 0x5f
}

/// ASCII decimal digit.
pub open spec fn spec_is_digit_char(b: u8) -> bool {
    0x30 <= b && b <= 0x39
}

/// A character allowed after the first in a name segment.
pub open spec fn spec_is_name_char(b: u8) -> bool {
    spec_is_lead_name_char(b) || spec_is_digit_char(b)
}

/// Whether `byte` is `expected`.
pub fn matches_byte(expected: u8, byte: u8) -> (r: bool)
    ensures
        r == (byte == expected),
{
    byte == expected
}

/// Whether `byte` may start a name segment.
pub fn is_lead_name_char(byte: u8) -> (r: bool)
    ensures
        r == spec_is_lead_name_char(byte),
{
    (byte >= 0x41 && byte <= 0x5a) || byte == 0x5f
}

/// Whether `byte` is a decimal digit.
pub fn is_digit_char(byte: u8) -> (r: bool)
    ensures
        r == spec_is_digit_char(byte),
{
    byte >= 0x30 && byte <= 0x39
}

/// Whether `byte` may follow the first character of a name segment.
pub fn is_name_char(byte: u8) -> (r: bool)
    ensures
        r == spec_is_name_char(byte),
{
    is_lead_name_char(byte) || is_digit_char(byte)
}

/// Checks characters `i..4` of a name segment at `pos`: the first must be a lead character,
/// the rest name characters. Gives the segment and the position after it.
pub open spec fn seg_from(data: Seq<u8>, pos: nat, i: nat) -> Result<(Seq<u8>, nat), AmlError>
    decreases 4 - i,
{
    if i >= 4 {
        Ok((data.subrange(pos as int, pos + 4int), pos + 4))
    } else if pos + i >= data.len() {
        Err(AmlError::EndOfStream)
    } else if !(if i == 0 {
        spec_is_lead_name_char(data[(pos + i) as int])
    } else {
        spec_is_name_char(data[(pos + i) as int])
    }) {
        Err(AmlError::UnexpectedByte(data[(pos + i) as int]))
    } else {
        seg_from(data, pos, i + 1)
    }
}

/// A four-character name segment at `pos`.
pub open spec fn name_seg_outcome(data: Seq<u8>, pos: nat) -> Result<(Seq<u8>, nat), AmlError> {
    seg_from(data, pos, 0)
}

/// A name path at `pos`: empty, one segment, or two segments after the dual prefix. The
/// counted form is not handled.
pub open spec fn name_path_outcome(data: Seq<u8>, pos: nat) -> Result<(Seq<u8>, nat), AmlError> {
    if pos >= data.len() {
        Err(AmlError::EndOfStream)
    } else if data[pos as int] == NULL_NAME {
        Ok((Seq::empty(), pos + 1))
    } else if data[pos as int] == DUAL_NAME_PREFIX {
        match name_seg_outcome(data, pos + 1) {
            Err(e) => Err(e),
            Ok((a, p)) => match name_seg_outcome(data, p) {
                Err(e) => Err(e),
                Ok((b, q)) => Ok((a + b, q)),
            },
        }
    } else if data[pos as int] == MULTI_NAME_PREFIX {
        Err(AmlError::NotYetSupported)
    } else {
        name_seg_outcome(data, pos)
    }
}

/// The number of parent-pop characters in a row from `pos`.
pub open spec fn caret_count(s: Seq<u8>, pos: nat) -> nat
    decreases s.len() - pos,
{
    if pos < s.len() && s[pos as int] == PARENT_PREFIX_CHAR {
        1 + caret_count(s, pos + 1)
    } else {
        0
    }
}

/// A name token at `pos`: a root-anchored path, or parent-pops followed by a path. The token
/// keeps its leading characters.
pub open spec fn name_string_outcome(data: Seq<u8>, pos: nat) -> Result<(Seq<u8>, nat), AmlError> {
    if pos >= data.len() {
        Err(AmlError::EndOfStream)
    } else {
        let k: nat = if data[pos as int] == ROOT_CHAR {
            1
        } else {
            caret_count(data, pos)
        };
        match name_path_outcome(data, pos + k) {
            Err(e) => Err(e),
            Ok((p, q)) => Ok((data.subrange(pos as int, (pos + k) as int) + p, q)),
        }
    }
}

/// 1 where `scope` starts at the root, else 0.
pub open spec fn root_len(scope: Seq<u8>) -> nat {
    if scope.len() > 0 && scope[0] == ROOT_CHAR {
        1
    } else {
        0
    }
}

/// The absolute path that `token` names from `scope`; `None` where its parent-pops take more
/// segments than the scope holds. A root-anchored token stands as it is; otherwise each
/// parent-pop drops the last four-character segment of the scope and the rest of the token
/// is appended.
pub open spec fn resolve_outcome(scope: Seq<u8>, token: Seq<u8>) -> Option<Seq<u8>> {
    if token.len() > 0 && token[0] == ROOT_CHAR {
        Some(token)
    } else {
        let k = caret_count(token, 0);
        if 4 * k + root_len(scope) <= scope.len() {
            Some(
                scope.subrange(0, scope.len() - 4 * k) + token.subrange(k as int, token.len() as int),
            )
        } else {
            None
        }
    }
}

/// The number of parent-pop characters at the start of `s` from `start`.
fn count_carets(s: &[u8], start: usize) -> (k: usize)
    requires
        start <= s@.len(),
    ensures
        k == caret_count(s@, start as nat),
        start + k <= s@.len(),
{
    let mut i: usize = start;
    while i < s.len() && s[i] == PARENT_PREFIX_CHAR
        invariant
            start <= i <= s@.len(),
            caret_count(s@, start as nat) == (i - start) + caret_count(s@, i as nat),
        decreases s@.len() - i,
    {
        i = i + 1;
    }
    i - start
}

/// Appends `src[from..to]` to `dst`.
pub(crate) fn append_range(dst: &mut Vec<u8>, src: &[u8], from: usize, to: usize)
    requires
        from <= to <= src@.len(),
    ensures
        final(dst)@ == old(dst)@ + src@.subrange(from as int, to as int),
{
    let mut i: usize = from;
    while i < to
        invariant
            from <= i <= to <= src@.len(),
            dst@ == old(dst)@ + src@.subrange(from as int, i as int),
        decreases to - i,
    {
        dst.push(src[i]);
        i = i + 1;
        assert(src@.subrange(from as int, i as int) =~= src@.subrange(from as int, i - 1).push(
            src@[i - 1],
        ));
    }
}

/// Resolves a name token against `scope` to an absolute path: the token unchanged when it is
/// root-anchored, otherwise the scope less one segment per parent-pop followed by the rest of
/// the token. Popping past the root fails with `InvalidPath`, which carries the token.
pub fn resolve_path(scope: &[u8], path: Vec<u8>) -> (r: Result<Vec<u8>, AmlError>)
    ensures
        match resolve_outcome(scope@, path@) {
            Some(p) => r matches Ok(v) && v@ == p,
            None => r matches Err(AmlError::InvalidPath(t)) && t@ == path@,
        },
{
    if path.len() > 0 && path[0] == ROOT_CHAR {
        return Ok(path);
    }
    let k = count_carets(path.as_slice(), 0);
    let root: usize = if scope.len() > 0 && scope[0] == ROOT_CHAR {
        1
    } else {
        0
    };
    if k > (scope.len() - root) / 4 {
        return Err(AmlError::InvalidPath(path));
    }
    let mut resolved: Vec<u8> = Vec::new();
    append_range(&mut resolved, scope, 0, scope.len() - 4 * k);
    append_range(&mut resolved, path.as_slice(), k, path.len());
    Ok(resolved)
}

} // verus!
