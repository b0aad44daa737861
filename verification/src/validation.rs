//! Input validation for commands and persisted world identifiers.
use vstd::prelude::*;

use crate::commands::{CreateWorldCmd, CreateZoneCmd, SimCommand, SpawnEntityCmd};
use crate::errors::ValidationError;
use vstd::string::StringSliceAdditionalSpecFns;

verus! {

/// Largest accepted `TickN` count.
pub const MAX_TICKS_PER_COMMAND: u32 = 10000;

/// Largest accepted world or zone name, in UTF-8 bytes.
pub const MAX_NAME_LEN: usize = 64;

pub open spec fn has_byte(b: Seq<u8>, c: u8) -> bool {
    exists|i: int| 0 <= i < b.len() && b[i] == c
}

/// Two consecutive dots anywhere in the identifier.
pub open spec fn dot_pair_at(b: Seq<u8>, i: int) -> bool {
    b[i] == 46u8 && b[i + 1] == 46u8
}

pub open spec fn has_dot_dot(b: Seq<u8>) -> bool {
    exists|i: int| 0 <= i && i + 1 < b.len() && #[trigger] dot_pair_at(b, i)
}

/// ASCII letter, ASCII digit, '_' or '-'.
pub open spec fn is_id_byte(c: u8) -> bool {
    (48u8 <= c <= 57u8) || (65u8 <= c <= 90u8) || (97u8 <= c <= 122u8) || c == 95u8 || c == 45u8
}

pub open spec fn all_id_bytes(b: Seq<u8>) -> bool {
    forall|i: int| 0 <= i < b.len() ==> is_id_byte(#[trigger] b[i])
}

pub open spec fn opt_err(cond: bool, e: ValidationError) -> Seq<ValidationError> {
    if cond {
        seq![e]
    } else {
        seq![]
    }
}

/// The errors reported for a world identifier, given its UTF-8 bytes, in the
/// order they are reported.
pub open spec fn world_id_errors(b: Seq<u8>) -> Seq<ValidationError> {
    if b.len() == 0 {
        seq![ValidationError::WorldIdEmpty]
    } else {
        opt_err(b == seq![46u8] || has_dot_dot(b), ValidationError::WorldIdPathTraversal)
            + opt_err(has_byte(b, 47u8) || has_byte(b, 92u8) || has_byte(b, 0u8), ValidationError::WorldIdSeparator)
            + opt_err(has_byte(b, 58u8), ValidationError::WorldIdDriveSeparator)
            + opt_err(!all_id_bytes(b), ValidationError::WorldIdCharset)
    }
}

fn is_id_byte_exec(c: u8) -> (r: bool)
    ensures
        r == is_id_byte(c),
{
    (48u8 <= c && c <= 57u8) || (65u8 <= c && c <= 90u8) || (97u8 <= c && c <= 122u8) || c == 95u8
        || c == 45u8
}

/// Validate a persisted world identifier before it is used to build a path.
pub fn validate_world_id(world_id: &str) -> (errors: Vec<ValidationError>)
    ensures
        errors@ == world_id_errors(world_id.spec_bytes()),
{
    let b = world_id.as_bytes();
    let mut errors: Vec<ValidationError> = Vec::new();
    if b.len() == 0 {
        errors.push(ValidationError::WorldIdEmpty);
        return errors;
    }
    let mut dot_dot = false;
    let mut sep = false;
    let mut drive = false;
    let mut charset_ok = true;
    let n = b.len();
    let mut i: usize = 0;
    while i < n
        invariant
            n == b@.len(),
            i <= n,
            dot_dot == (exists|j: int| 0 <= j && j + 1 < i && #[trigger] dot_pair_at(b@, j)),
            sep == (exists|j: int| 0 <= j < i && (b@[j] == 47u8 || b@[j] == 92u8 || b@[j] == 0u8)),
            drive == (exists|j: int| 0 <= j < i && b@[j] == 58u8),
            charset_ok == (forall|j: int| 0 <= j < i ==> is_id_byte(#[trigger] b@[j])),
        decreases n - i,
    {
        let c = b[i];
        if i > 0 && c == 46u8 && b[i - 1] == 46u8 {
            dot_dot = true;
        }
        if c == 47u8 || c == 92u8 || c == 0u8 {
            sep = true;
        }
        if c == 58u8 {
            drive = true;
        }
        if !is_id_byte_exec(c) {
            charset_ok = false;
        }
        proof {
            if i > 0 && c == 46u8 && b@[i - 1] == 46u8 {
                assert(dot_pair_at(b@, i - 1));
            } else {
                assert forall|j: int| 0 <= j && j + 1 < i + 1 && #[trigger] dot_pair_at(b@, j) implies j + 1 < i by {
                }
            }
            if !charset_ok {
                assert(!(forall|j: int| 0 <= j < i + 1 ==> is_id_byte(#[trigger] b@[j])));
            }
        }
        i = i + 1;
    }
    let ghost bs = world_id.spec_bytes();
    assert(b@ == bs);
    let single_dot = n == 1 && b[0] == 46u8;
    proof {
        assert(single_dot == (bs == seq![46u8])) by {
            if bs == seq![46u8] {
                assert(bs.len() == 1 && bs[0] == 46u8);
            }
            if single_dot {
                assert(bs =~= seq![46u8]);
            }
        }
        assert(sep == (has_byte(bs, 47u8) || has_byte(bs, 92u8) || has_byte(bs, 0u8)));
    }
    if single_dot || dot_dot {
        errors.push(ValidationError::WorldIdPathTraversal);
    }
    if sep {
        errors.push(ValidationError::WorldIdSeparator);
    }
    if drive {
        errors.push(ValidationError::WorldIdDriveSeparator);
    }
    if !charset_ok {
        errors.push(ValidationError::WorldIdCharset);
    }
    assert(errors@ =~= world_id_errors(bs));
    errors
}

/// Length of a string in UTF-8 bytes, as the string reports it.
pub open spec fn utf8_len(s: String) -> usize {
    vstd::utf8::encode_utf8(s@).len() as usize
}

/// The errors reported for a world-creation command.
pub open spec fn create_world_errors(cmd: CreateWorldCmd) -> Seq<ValidationError> {
    opt_err(cmd.name@.len() == 0, ValidationError::WorldNameEmpty)
        + opt_err(utf8_len(cmd.name) > 64, ValidationError::WorldNameTooLong)
}

/// The errors reported for a zone-creation command.
pub open spec fn create_zone_errors(cmd: CreateZoneCmd) -> Seq<ValidationError> {
    match cmd.name {
        Some(name) => opt_err(utf8_len(name) > 64, ValidationError::ZoneNameTooLong),
        None => seq![],
    }
}

/// The errors reported for any command.
pub open spec fn command_errors(cmd: SimCommand) -> Seq<ValidationError> {
    match cmd {
        SimCommand::CreateWorld(c) => create_world_errors(c),
        SimCommand::SpawnEntity(_) => seq![],
        SimCommand::CreateZone(c) => create_zone_errors(c),
        SimCommand::TickN(n) => if n == 0 {
            seq![ValidationError::TickCountZero]
        } else if n > 10000 {
            seq![ValidationError::TickCountTooLarge]
        } else {
            seq![]
        },
        _ => seq![],
    }
}

fn validate_create_world(cmd: &CreateWorldCmd) -> (errors: Vec<ValidationError>)
    ensures
        errors@ == create_world_errors(*cmd),
{
    let mut errors: Vec<ValidationError> = Vec::new();
    let name = cmd.name.as_str();
    if name.is_empty() {
        errors.push(ValidationError::WorldNameEmpty);
    }
    if name.len() > MAX_NAME_LEN {
        errors.push(ValidationError::WorldNameTooLong);
    }
    assert(errors@ =~= create_world_errors(*cmd));
    errors
}

fn validate_spawn_entity(_cmd: &SpawnEntityCmd) -> (errors: Vec<ValidationError>)
    ensures
        errors@.len() == 0,
{
    Vec::new()
}

fn validate_create_zone(cmd: &CreateZoneCmd) -> (errors: Vec<ValidationError>)
    ensures
        errors@ == create_zone_errors(*cmd),
{
    let mut errors: Vec<ValidationError> = Vec::new();
    if let Some(name) = &cmd.name {
        if name.as_str().len() > MAX_NAME_LEN {
            errors.push(ValidationError::ZoneNameTooLong);
        }
    }
    assert(errors@ =~= create_zone_errors(*cmd));
    errors
}

/// Validate a command accepted by the pure simulation core.
pub fn validate_sim_command(cmd: &SimCommand) -> (r: Result<(), Vec<ValidationError>>)
    ensures
        match r {
            Ok(()) => command_errors(*cmd).len() == 0,
            Err(errors) => errors@ == command_errors(*cmd) && errors@.len() > 0,
        },
{
    let errors = match cmd {
        SimCommand::CreateWorld(c) => validate_create_world(c),
        SimCommand::SpawnEntity(c) => validate_spawn_entity(c),
        SimCommand::CreateZone(c) => validate_create_zone(c),
        SimCommand::TickN(n) => {
            let mut v: Vec<ValidationError> = Vec::new();
            if *n == 0 {
                v.push(ValidationError::TickCountZero);
            } else if *n > MAX_TICKS_PER_COMMAND {
                v.push(ValidationError::TickCountTooLarge);
            }
            v
        },
        _ => Vec::new(),
    };
    assert(errors@ =~= command_errors(*cmd));
    if errors.len() == 0 {
        Ok(())
    } else {
        Err(errors)
    }
}

/// Validates a persisted world identifier: `InvalidWorldId` with its errors
/// when it is not a safe storage key.
pub fn validate_world_id_result(world_id: &str) -> (r: Result<(), crate::errors::SimError>)
    ensures
        world_id_errors(world_id.spec_bytes()).len() == 0 <==> r is Ok,
        r matches Err(crate::errors::SimError::InvalidWorldId { world_id: id, errors }) ==> id@ == world_id@
            && errors@ == world_id_errors(world_id.spec_bytes()),
        r is Err ==> r matches Err(crate::errors::SimError::InvalidWorldId { .. }),
{
    let errors = validate_world_id(world_id);
    if errors.len() == 0 {
        Ok(())
    } else {
        Err(crate::errors::SimError::InvalidWorldId { world_id: world_id.to_owned(), errors })
    }
}

/// A byte of a plain identifier: an ASCII letter, an ASCII digit, `_` or `-`.
pub open spec fn plain_id_byte(c: u8) -> bool {
    ||| ('0' as u8) <= c && c <= ('9' as u8)
    ||| ('A' as u8) <= c && c <= ('Z' as u8)
    ||| ('a' as u8) <= c && c <= ('z' as u8)
    ||| c == ('_' as u8)
    ||| c == ('-' as u8)
}

/// Every non-empty identifier made only of ASCII letters, ASCII digits, `_`
/// and `-` is a valid world identifier: no error is reported for it.
pub proof fn law_plain_ids_are_valid(b: Seq<u8>)
    requires
        b.len() > 0,
        forall|i: int| 0 <= i < b.len() ==> plain_id_byte(#[trigger] b[i]),
    ensures
        world_id_errors(b) == Seq::<ValidationError>::empty(),
{
    assert(b != seq![46u8]) by {
        if b == seq![46u8] {
            assert(plain_id_byte(b[0]));
        }
    }
    assert(!has_dot_dot(b)) by {
        if has_dot_dot(b) {
            let j = choose|j: int| 0 <= j && j + 1 < b.len() && #[trigger] dot_pair_at(b, j);
            assert(plain_id_byte(b[j]));
        }
    }
    assert(!has_byte(b, 47u8) && !has_byte(b, 92u8) && !has_byte(b, 0u8) && !has_byte(b, 58u8)) by {
        assert forall|i: int| 0 <= i < b.len() implies b[i] != 47u8 && b[i] != 92u8 && b[i] != 0u8 && b[i] != 58u8 by {
            assert(plain_id_byte(b[i]));
        }
    }
    assert(all_id_bytes(b)) by {
        assert forall|i: int| 0 <= i < b.len() implies is_id_byte(#[trigger] b[i]) by {
            assert(plain_id_byte(b[i]));
        }
    }
    assert(world_id_errors(b) =~= Seq::<ValidationError>::empty());
}

proof fn lemma_decimal_digits(n: nat)
    ensures
        forall|i: int| 0 <= i < crate::text::decimal_chars(n).len() ==> '0' <= #[trigger] crate::text::decimal_chars(n)[i] <= '9',
    decreases n,
{
    let d = crate::text::decimal_chars(n);
    if n >= 10 {
        lemma_decimal_digits(n / 10);
        let p = crate::text::decimal_chars(n / 10);
        let c = crate::text::digit_char((n % 10) as int);
        assert('0' <= c <= '9');
        assert(d == p.push(c));
        assert forall|i: int| 0 <= i < d.len() implies '0' <= #[trigger] d[i] <= '9' by {
            if i < p.len() {
                assert(d[i] == p[i]);
            }
        }
    } else {
        let c = crate::text::digit_char(n as int);
        assert('0' <= c <= '9');
        assert(d == seq![c]);
    }
}

/// The identifier the kernel builds for a world, `world_<seed>`, is valid for
/// every seed.
pub proof fn law_seed_world_ids_are_valid(seed: u64)
    ensures
        world_id_errors(vstd::utf8::encode_utf8(crate::text::world_id_chars(seed))) == Seq::<ValidationError>::empty(),
{
    let cs = crate::text::world_id_chars(seed);
    let ds = crate::text::decimal_chars(seed as nat);
    lemma_decimal_digits(seed as nat);
    assert forall|i: int| 0 <= i < cs.len() implies ('0' <= #[trigger] cs[i] <= '9') || cs[i] == 'w' || cs[i] == 'o'
        || cs[i] == 'r' || cs[i] == 'l' || cs[i] == 'd' || cs[i] == '_' by {
        if i >= 6 {
            assert(cs[i] == ds[i - 6]);
        }
    }
    assert(vstd::utf8::is_ascii_chars(cs));
    vstd::utf8::is_ascii_chars_encode_utf8(cs);
    let b = vstd::utf8::encode_utf8(cs);
    assert forall|i: int| 0 <= i < b.len() implies plain_id_byte(#[trigger] b[i]) by {
        assert(cs[i] as u8 == b[i]);
    }
    law_plain_ids_are_valid(b);
}

/// A world identifier is refused for its charset exactly when it is
/// non-empty and holds a byte other than an ASCII letter, an ASCII digit,
/// `_` or `-`; an empty identifier is refused as empty and for nothing else.
pub proof fn law_charset_refusal(b: Seq<u8>)
    ensures
        b.len() == 0 ==> world_id_errors(b) == seq![ValidationError::WorldIdEmpty],
        world_id_errors(b).contains(ValidationError::WorldIdCharset) <==> (b.len() > 0 && exists|i: int|
            0 <= i < b.len() && !plain_id_byte(#[trigger] b[i])),
{
    if b.len() > 0 {
        let p1 = opt_err(b == seq![46u8] || has_dot_dot(b), ValidationError::WorldIdPathTraversal);
        let p2 = opt_err(has_byte(b, 47u8) || has_byte(b, 92u8) || has_byte(b, 0u8), ValidationError::WorldIdSeparator);
        let p3 = opt_err(has_byte(b, 58u8), ValidationError::WorldIdDriveSeparator);
        let p4 = opt_err(!all_id_bytes(b), ValidationError::WorldIdCharset);
        assert(world_id_errors(b) == p1 + p2 + p3 + p4);
        assert(!p1.contains(ValidationError::WorldIdCharset));
        assert(!p2.contains(ValidationError::WorldIdCharset));
        assert(!p3.contains(ValidationError::WorldIdCharset));
        if world_id_errors(b).contains(ValidationError::WorldIdCharset) {
            let k = choose|k: int| 0 <= k < world_id_errors(b).len() && world_id_errors(b)[k] == ValidationError::WorldIdCharset;
            assert(p4.len() > 0);
            assert(!all_id_bytes(b));
            let i = choose|i: int| 0 <= i < b.len() && !is_id_byte(#[trigger] b[i]);
            assert(!plain_id_byte(b[i]));
        }
        if exists|i: int| 0 <= i < b.len() && !plain_id_byte(#[trigger] b[i]) {
            let i = choose|i: int| 0 <= i < b.len() && !plain_id_byte(#[trigger] b[i]);
            assert(!is_id_byte(b[i]));
            assert(!all_id_bytes(b));
            let q = p1 + p2 + p3;
            assert((q + p4)[q.len() as int] == ValidationError::WorldIdCharset);
        }
    }
}

/// Which commands validation accepts: a tick batch of 1 to 10000 ticks, a
/// world whose name is not empty and has at most 64 bytes of UTF-8, a zone
/// whose name (if any) has at most 64 bytes, and every other command.
pub proof fn law_accepted_commands(cmd: SimCommand)
    requires
        cmd matches SimCommand::CreateWorld(c) ==> vstd::utf8::encode_utf8(c.name@).len() <= usize::MAX,
        cmd matches SimCommand::CreateZone(c) ==> (c.name matches Some(name) ==> vstd::utf8::encode_utf8(name@).len()
            <= usize::MAX),
    ensures
        command_errors(cmd).len() == 0 <==> match cmd {
            SimCommand::TickN(n) => 1 <= n && n <= 10000,
            SimCommand::CreateWorld(c) => c.name@.len() > 0 && vstd::utf8::encode_utf8(c.name@).len() <= 64,
            SimCommand::CreateZone(c) => match c.name {
                Some(name) => vstd::utf8::encode_utf8(name@).len() <= 64,
                None => true,
            },
            _ => true,
        },
{
}

} // verus!
