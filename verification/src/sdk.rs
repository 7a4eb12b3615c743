//! What the plugin SDK writes into the Lua runtime's script slot.
//!
//! The runtime reserves a buffer in its linear memory; a plugin is the
//! runtime with that buffer initialized to the payload built here: the
//! script's length and the name's length (each four bytes, little-endian),
//! then the name, then the script.
use vstd::prelude::*;
use vstd::string::StringSliceAdditionalSpecFns;
use crate::text::{str_eq, decimal, push_decimal};

verus! {

/// Where the runtime wants the script: the buffer's address and capacity in
/// bytes, and the initial size of the memory it lives in
#[derive(Debug, Clone, Copy, PartialEq, Eq, Structural)]
pub struct Slot {
    pub address: u32,
    pub capacity: u32,
    pub memory_size: u64,
}

/// The four bytes of `x`, least significant first (`u32::to_le_bytes`)
pub open spec fn le_bytes(x: nat) -> Seq<u8> {
    seq![
        (x % 256) as u8,
        ((x / 256) % 256) as u8,
        ((x / 65536) % 256) as u8,
        ((x / 16777216) % 256) as u8,
    ]
}

/// The payload for the script `script`, whose errors are reported under
/// the name whose UTF-8 bytes are `name`
pub open spec fn payload_of(name: Seq<u8>, script: Seq<u8>) -> Seq<u8> {
    le_bytes(script.len()) + le_bytes(name.len()) + name + script
}

fn push_le_bytes(out: &mut Vec<u8>, x: u32)
    ensures
        final(out)@ == old(out)@ + le_bytes(x as nat),
{
    out.push((x % 256) as u8);
    out.push(((x / 256) % 256) as u8);
    out.push(((x / 65536) % 256) as u8);
    out.push(((x / 16777216) % 256) as u8);
    assert(final(out)@ =~= old(out)@ + le_bytes(x as nat));
}

fn push_all(out: &mut Vec<u8>, bytes: &[u8])
    ensures
        final(out)@ == old(out)@ + bytes@,
{
    let n = bytes.len();
    let mut k: usize = 0;
    while k < n
        invariant
            n == bytes@.len(),
            k <= n,
            out@ == old(out)@ + bytes@.take(k as int),
        decreases n - k,
    {
        out.push(bytes[k]);
        assert(bytes@.take(k + 1) =~= bytes@.take(k as int).push(bytes@[k as int]));
        assert(out@ =~= old(out)@ + bytes@.take(k + 1));
        k += 1;
    }
    assert(bytes@.take(n as int) =~= bytes@);
}

/// The bytes the runtime reads from its slot, or why they cannot be made:
/// the script and the name must each be shorter than 4 GiB
pub fn slot_payload(name: &str, script: &[u8]) -> (r: Result<Vec<u8>, String>)
    ensures
        match r {
            Ok(p) => {
                &&& script@.len() <= u32::MAX
                &&& name.spec_bytes().len() <= u32::MAX
                &&& p@ == payload_of(name.spec_bytes(), script@)
            },
            Err(m) => if script@.len() > u32::MAX {
                m@ == "the script is larger than 4 GiB"@
            } else {
                name.spec_bytes().len() > u32::MAX && m@ == "the script name is larger than 4 GiB"@
            },
        },
{
    let name_bytes = name.as_bytes();
    if script.len() > 0xffff_ffff {
        return Err("the script is larger than 4 GiB".to_owned());
    }
    if name_bytes.len() > 0xffff_ffff {
        return Err("the script name is larger than 4 GiB".to_owned());
    }
    let script_len = script.len() as u32;
    let name_len = name_bytes.len() as u32;
    let mut payload: Vec<u8> = Vec::new();
    push_le_bytes(&mut payload, script_len);
    push_le_bytes(&mut payload, name_len);
    push_all(&mut payload, name_bytes);
    push_all(&mut payload, script);
    Ok(payload)
}

// ---------------------------------------------------------------------------
// Where the slot is
// ---------------------------------------------------------------------------

/// What a runtime module declares that locates its script slot: how many
/// globals it imports, the constant `i32` value of each global it defines
/// (`None` for one that is not such a constant), its exported globals by
/// name and index, its active data segments of memory 0 with a constant
/// offset, and the initial size in bytes of its memory, if it has one
pub struct RuntimeLayout {
    pub imported_globals: u32,
    pub globals: Vec<Option<u32>>,
    pub exports: Vec<(String, u32)>,
    pub segments: Vec<(u32, Vec<u8>)>,
    pub memory_size: Option<u64>,
}

/// Model of a [`RuntimeLayout`]
pub ghost struct RuntimeLayoutV {
    pub imported_globals: nat,
    pub globals: Seq<Option<u32>>,
    pub exports: Seq<(Seq<char>, nat)>,
    pub segments: Seq<(nat, Seq<u8>)>,
    pub memory_size: Option<nat>,
}

impl View for RuntimeLayout {
    type V = RuntimeLayoutV;

    open spec fn view(&self) -> RuntimeLayoutV {
        RuntimeLayoutV {
            imported_globals: self.imported_globals as nat,
            globals: self.globals@,
            exports: self.exports@.map_values(|e: (String, u32)| (e.0@, e.1 as nat)),
            segments: self.segments@.map_values(|g: (u32, Vec<u8>)| (g.0 as nat, g.1@)),
            memory_size: match self.memory_size {
                Some(m) => Some(m as nat),
                None => None,
            },
        }
    }
}

/// The name of the global holding the slot's address
pub open spec fn slot_export() -> Seq<char> {
    "nginx_lint_lua_script_slot"@
}

/// The name of the global holding the address of the slot's capacity
pub open spec fn slot_max_export() -> Seq<char> {
    "nginx_lint_lua_script_slot_max"@
}

/// The index exported under `name`: the first export of that name
pub open spec fn export_index(exports: Seq<(Seq<char>, nat)>, name: Seq<char>) -> Option<nat>
    decreases exports.len(),
{
    if exports.len() == 0 {
        None
    } else if exports[0].0 == name {
        Some(exports[0].1)
    } else {
        export_index(exports.drop_first(), name)
    }
}

/// The constant value of the global exported under `name`, or why there is none
pub open spec fn exported_address(l: RuntimeLayoutV, name: Seq<char>) -> Result<u32, Seq<char>> {
    match export_index(l.exports, name) {
        None => Err("the runtime does not export `"@ + name + "`"@),
        Some(index) => if index < l.imported_globals {
            Err("`"@ + name + "` is an imported global"@)
        } else {
            let defined = index - l.imported_globals;
            if defined < l.globals.len() && l.globals[defined as int] is Some {
                Ok(l.globals[defined as int]->Some_0)
            } else {
                Err("`"@ + name + "` is not a constant i32 global"@)
            }
        },
    }
}

/// The little-endian `u32` in the four bytes of `b` from `start`
pub open spec fn le_u32_at(b: Seq<u8>, start: int) -> nat {
    (b[start] + 256 * b[start + 1] + 65536 * b[start + 2] + 16777216 * b[start + 3]) as nat
}

/// The four bytes at `address` in the first segment of `segments` that holds them
pub open spec fn read_u32(segments: Seq<(nat, Seq<u8>)>, address: nat) -> Option<nat>
    decreases segments.len(),
{
    if segments.len() == 0 {
        None
    } else {
        let (offset, data) = segments[0];
        if offset <= address && address - offset + 4 <= data.len() {
            Some(le_u32_at(data, address - offset))
        } else {
            read_u32(segments.drop_first(), address)
        }
    }
}

/// The slot of the runtime laid out as `l`, or why it cannot be found
pub open spec fn slot_of(l: RuntimeLayoutV) -> Result<Slot, Seq<char>> {
    match exported_address(l, slot_export()) {
        Err(e) => Err(e),
        Ok(address) => match exported_address(l, slot_max_export()) {
            Err(e) => Err(e),
            Ok(capacity_address) => match read_u32(l.segments, capacity_address as nat) {
                None => Err("`nginx_lint_lua_script_slot_max` points outside the runtime's data"@),
                Some(capacity) => match l.memory_size {
                    None => Err("the runtime defines no memory"@),
                    Some(memory_size) => if address + capacity <= memory_size {
                        Ok(Slot {
                            address,
                            capacity: capacity as u32,
                            memory_size: memory_size as u64,
                        })
                    } else {
                        Err("the script slot extends past the runtime's initial memory"@)
                    },
                },
            },
        },
    }
}

/// The message `prefix + name + suffix`
fn message_with(prefix: &str, name: &str, suffix: &str) -> (s: String)
    ensures
        s@ == prefix@ + name@ + suffix@,
{
    let mut s = prefix.to_owned();
    s.append(name);
    s.append(suffix);
    s
}

/// [`export_index`]
fn find_export(exports: &Vec<(String, u32)>, name: &str) -> (r: Option<u32>)
    ensures
        match r {
            Some(i) => export_index(
                exports@.map_values(|e: (String, u32)| (e.0@, e.1 as nat)),
                name@,
            ) == Some(i as nat),
            None => export_index(
                exports@.map_values(|e: (String, u32)| (e.0@, e.1 as nat)),
                name@,
            ) is None,
        },
{
    let ghost ev = exports@.map_values(|e: (String, u32)| (e.0@, e.1 as nat));
    let mut k: usize = 0;
    assert(ev.skip(0) =~= ev);
    while k < exports.len()
        invariant
            ev == exports@.map_values(|e: (String, u32)| (e.0@, e.1 as nat)),
            k <= exports@.len(),
            export_index(ev, name@) == export_index(ev.skip(k as int), name@),
        decreases exports@.len() - k,
    {
        let ghost rest = ev.skip(k as int);
        assert(rest[0] == ev[k as int]);
        if str_eq(exports[k].0.as_str(), name) {
            return Some(exports[k].1);
        }
        assert(rest.drop_first() =~= ev.skip(k + 1));
        k += 1;
    }
    assert(ev.skip(k as int) =~= Seq::<(Seq<char>, nat)>::empty());
    None
}

/// [`exported_address`]
fn find_exported_address(l: &RuntimeLayout, name: &str) -> (r: Result<u32, String>)
    ensures
        match r {
            Ok(a) => exported_address(l@, name@) == Ok::<u32, Seq<char>>(a),
            Err(e) => exported_address(l@, name@) == Err::<u32, Seq<char>>(e@),
        },
{
    let index = match find_export(&l.exports, name) {
        Some(i) => i,
        None => return Err(message_with("the runtime does not export `", name, "`")),
    };
    if index < l.imported_globals {
        return Err(message_with("`", name, "` is an imported global"));
    }
    let defined = index - l.imported_globals;
    if (defined as usize) < l.globals.len() {
        match l.globals[defined as usize] {
            Some(v) => return Ok(v),
            None => {},
        }
    }
    Err(message_with("`", name, "` is not a constant i32 global"))
}

/// [`read_u32`]
fn read_u32_at(segments: &Vec<(u32, Vec<u8>)>, address: u32) -> (r: Option<u32>)
    ensures
        match r {
            Some(v) => read_u32(
                segments@.map_values(|g: (u32, Vec<u8>)| (g.0 as nat, g.1@)),
                address as nat,
            ) == Some(v as nat),
            None => read_u32(
                segments@.map_values(|g: (u32, Vec<u8>)| (g.0 as nat, g.1@)),
                address as nat,
            ) is None,
        },
{
    let ghost sv = segments@.map_values(|g: (u32, Vec<u8>)| (g.0 as nat, g.1@));
    let mut k: usize = 0;
    assert(sv.skip(0) =~= sv);
    while k < segments.len()
        invariant
            sv == segments@.map_values(|g: (u32, Vec<u8>)| (g.0 as nat, g.1@)),
            k <= segments@.len(),
            read_u32(sv, address as nat) == read_u32(sv.skip(k as int), address as nat),
        decreases segments@.len() - k,
    {
        let ghost rest = sv.skip(k as int);
        assert(rest[0] == sv[k as int]);
        let offset = segments[k].0;
        let data = &segments[k].1;
        if offset <= address {
            let start = (address - offset) as usize;
            if start <= data.len() && data.len() - start >= 4 {
                let b0 = data[start] as u32;
                let b1 = data[start + 1] as u32;
                let b2 = data[start + 2] as u32;
                let b3 = data[start + 3] as u32;
                assert(b0 + 256 * b1 + 65536 * b2 + 16777216 * b3 <= u32::MAX) by (nonlinear_arith)
                    requires
                        b0 < 256,
                        b1 < 256,
                        b2 < 256,
                        b3 < 256,
                ;
                return Some(b0 + 256 * b1 + 65536 * b2 + 16777216 * b3);
            }
        }
        assert(rest.drop_first() =~= sv.skip(k + 1));
        k += 1;
    }
    assert(sv.skip(k as int) =~= Seq::<(nat, Seq<u8>)>::empty());
    None
}

/// The script slot of a runtime laid out as `layout`, or why it cannot be
/// found: each of the two globals must be exported, defined by the module
/// and a constant `i32`; the capacity must lie within a data segment; the
/// module must define a memory, and the slot must fit in it
pub fn locate_slot(layout: &RuntimeLayout) -> (r: Result<Slot, String>)
    ensures
        match r {
            Ok(s) => slot_of(layout@) == Ok::<Slot, Seq<char>>(s),
            Err(e) => slot_of(layout@) == Err::<Slot, Seq<char>>(e@),
        },
{
    let address = match find_exported_address(layout, "nginx_lint_lua_script_slot") {
        Ok(a) => a,
        Err(e) => return Err(e),
    };
    let capacity_address = match find_exported_address(layout, "nginx_lint_lua_script_slot_max") {
        Ok(a) => a,
        Err(e) => return Err(e),
    };
    let capacity = match read_u32_at(&layout.segments, capacity_address) {
        Some(c) => c,
        None => return Err("`nginx_lint_lua_script_slot_max` points outside the runtime's data".to_owned()),
    };
    let memory_size = match layout.memory_size {
        Some(m) => m,
        None => return Err("the runtime defines no memory".to_owned()),
    };
    if (address as u64) + (capacity as u64) <= memory_size {
        Ok(Slot { address, capacity, memory_size })
    } else {
        Err("the script slot extends past the runtime's initial memory".to_owned())
    }
}

/// Why a payload of `len` bytes does not fit a slot of `capacity` bytes
pub open spec fn too_large_message(len: nat, capacity: nat) -> Seq<char> {
    "the script is too large: "@ + decimal(len)
        + " bytes with its name, and the runtime holds at most "@ + decimal(capacity)
        + " bytes"@
}

/// The payload fits in the slot: with its name it takes at most `capacity` bytes
pub fn payload_fits(payload: &Vec<u8>, slot: &Slot) -> (r: Result<(), String>)
    ensures
        match r {
            Ok(()) => payload@.len() <= slot.capacity,
            Err(m) => payload@.len() > slot.capacity && m@ == too_large_message(
                payload@.len(),
                slot.capacity as nat,
            ),
        },
{
    if payload.len() <= slot.capacity as usize {
        Ok(())
    } else {
        let mut m = "the script is too large: ".to_owned();
        push_decimal(&mut m, payload.len());
        m.append(" bytes with its name, and the runtime holds at most ");
        push_decimal(&mut m, slot.capacity as usize);
        m.append(" bytes");
        Err(m)
    }
}

/// Where the script `script`, reported under the name whose UTF-8 bytes are
/// `name`, goes into a runtime laid out as `l`: its slot and the payload, or
/// why it cannot go there. The name and the script must not be empty, the
/// runtime must have a slot, and the payload must fit in it.
pub open spec fn injection(l: RuntimeLayoutV, name: Seq<u8>, script: Seq<u8>) -> Result<
    (Slot, Seq<u8>),
    Seq<char>,
> {
    if name.len() == 0 {
        Err("the script name is empty"@)
    } else if script.len() == 0 {
        Err("the script is empty"@)
    } else {
        match slot_of(l) {
            Err(e) => Err(e),
            Ok(slot) => if script.len() > u32::MAX {
                Err("the script is larger than 4 GiB"@)
            } else if name.len() > u32::MAX {
                Err("the script name is larger than 4 GiB"@)
            } else {
                let p = payload_of(name, script);
                if p.len() <= slot.capacity {
                    Ok((slot, p))
                } else {
                    Err(too_large_message(p.len(), slot.capacity as nat))
                }
            },
        }
    }
}

/// The slot of a runtime laid out as `layout` and the payload to write
/// there for the script `script` named `name`, or why there is none
pub fn prepare_injection(layout: &RuntimeLayout, name: &str, script: &[u8]) -> (r: Result<
    (Slot, Vec<u8>),
    String,
>)
    ensures
        match r {
            Ok((slot, p)) => injection(layout@, name.spec_bytes(), script@) == Ok::<
                (Slot, Seq<u8>),
                Seq<char>,
            >((slot, p@)),
            Err(m) => injection(layout@, name.spec_bytes(), script@) == Err::<
                (Slot, Seq<u8>),
                Seq<char>,
            >(m@),
        },
{
    if name.as_bytes().len() == 0 {
        return Err("the script name is empty".to_owned());
    }
    if script.len() == 0 {
        return Err("the script is empty".to_owned());
    }
    let slot = match locate_slot(layout) {
        Ok(s) => s,
        Err(e) => return Err(e),
    };
    let payload = match slot_payload(name, script) {
        Ok(p) => p,
        Err(e) => return Err(e),
    };
    match payload_fits(&payload, &slot) {
        Ok(()) => Ok((slot, payload)),
        Err(e) => Err(e),
    }
}

} // verus!
