//! The save record: a snapshot of a game and its fixed binary layout.
//!
//! A record is 289 bytes long and carries no version tag. Numbers wider
//! than a byte are stored with their least significant byte first.
//!
//! | bytes     | content                                                    |
//! |-----------|------------------------------------------------------------|
//! | 0..128    | the 32 terrain rows, 4 bytes each                          |
//! | 128..256  | the 32 bridge rows, 4 bytes each                           |
//! | 256..276  | the 4 trees: column (2), row (2), activity (1)             |
//! | 276..278  | the inventory, one byte per kind                           |
//! | 278..281  | the player's column, row and direction                     |
//! | 281..289  | the tick counter, 8 bytes                                  |

use vstd::prelude::*;
use crate::gamemode::MAPHEIGHT;
use crate::gamemode::TREECOUNT;
use crate::state::inventory::Inventory;
use crate::state::inventory::ITEM_KINDS;
use crate::state::map::MapData;
use crate::state::player::Direction;

verus! {

/// The length of a record in bytes.
pub const RECORD_LEN: usize = 289;

/// Where the bridge rows start in a record.
pub const BRIDGE_AT: usize = 128;

/// Where the trees start in a record.
pub const TREES_AT: usize = 256;

/// The length of one tree in a record.
pub const TREE_LEN: usize = 5;

/// Where the inventory starts in a record.
pub const INVENTORY_AT: usize = 276;

/// Where the player starts in a record.
pub const PLAYER_AT: usize = 278;

/// Where the tick counter starts in a record.
pub const FRAME_AT: usize = 281;

/// A snapshot of a game, as it is saved.
#[derive(Debug, Clone, Copy)]
pub struct SerializedState {
    pub map_data: MapData,
    pub inventory: Inventory,
    /// The player's column, row and direction.
    pub player: (u8, u8, Direction),
    /// The tick counter.
    pub frame: u64,
}

/// A number with its `k` least significant bytes dropped.
pub open spec fn le_shifted(v: int, k: nat) -> int
    decreases k,
{
    if k == 0 {
        v
    } else {
        le_shifted(v, (k - 1) as nat) / 0x100
    }
}

/// Byte `k` of a number, the least significant byte being byte 0.
pub open spec fn le_byte(v: int, k: int) -> u8 {
    (le_shifted(v, k as nat) % 0x100) as u8
}

/// The number whose bytes, least significant first, are the `width` bytes of
/// `bytes` from `at` on.
pub open spec fn le_value(bytes: Seq<u8>, at: int, width: nat) -> int
    decreases width,
{
    if width == 0 {
        0
    } else {
        bytes[at] as int + 0x100 * le_value(bytes, at + 1, (width - 1) as nat)
    }
}

/// The least number that does not fit into `width` bytes.
pub open spec fn le_limit(width: nat) -> int
    decreases width,
{
    if width == 0 {
        1
    } else {
        0x100 * le_limit((width - 1) as nat)
    }
}

/// The byte that stands for a direction.
pub open spec fn direction_code(direction: Direction) -> u8 {
    match direction {
        Direction::UP => 0,
        Direction::DOWN => 1,
        Direction::LEFT => 2,
        Direction::RIGHT => 3,
    }
}

/// The byte that stands for a tree's activity: its two's complement.
pub open spec fn activity_byte(activity: i8) -> u8 {
    if activity >= 0 {
        activity as u8
    } else {
        (activity + 0x100) as u8
    }
}

/// Byte `k` of a tree in a record.
pub open spec fn tree_byte(tree: (u16, u16, i8), k: int) -> u8 {
    if k < 2 {
        le_byte(tree.0 as int, k)
    } else if k < 4 {
        le_byte(tree.1 as int, k - 2)
    } else {
        activity_byte(tree.2)
    }
}

/// Byte `i` of the record of a snapshot.
pub open spec fn record_byte(s: SerializedState, i: int) -> u8 {
    if i < BRIDGE_AT {
        le_byte(s.map_data.map[i / 4] as int, i % 4)
    } else if i < TREES_AT {
        le_byte(s.map_data.bridge[(i - BRIDGE_AT) / 4] as int, (i - BRIDGE_AT) % 4)
    } else if i < INVENTORY_AT {
        tree_byte(
            s.map_data.tree_positions[(i - TREES_AT) / (TREE_LEN as int)],
            (i - TREES_AT) % (TREE_LEN as int),
        )
    } else if i < PLAYER_AT {
        s.inventory.content[i - INVENTORY_AT]
    } else if i == PLAYER_AT {
        s.player.0
    } else if i == PLAYER_AT + 1 {
        s.player.1
    } else if i == PLAYER_AT + 2 {
        direction_code(s.player.2)
    } else {
        le_byte(s.frame as int, i - FRAME_AT)
    }
}

/// Whether some snapshot has these bytes as its record: the length is that
/// of a record and the direction byte is one of the four codes. Every other
/// byte can hold any value.
pub open spec fn is_record(bytes: Seq<u8>) -> bool {
    bytes.len() == RECORD_LEN && bytes[PLAYER_AT + 2] <= 3
}

impl SerializedState {
    /// The record of a snapshot.
    pub open spec fn encoded(&self) -> Seq<u8> {
        Seq::new(RECORD_LEN as nat, |i: int| record_byte(*self, i))
    }
}

/// What reading a record from `bytes` gives: the snapshot that `bytes` is
/// the record of, or nothing if it is no record.
pub open spec fn decodes_to(bytes: Seq<u8>, r: Option<SerializedState>) -> bool {
    match r {
        Some(s) => is_record(bytes) && s.encoded() == bytes,
        None => !is_record(bytes),
    }
}

proof fn lemma_limits()
    ensures
        le_limit(1) == 0x100,
        le_limit(2) == 0x1_0000,
        le_limit(4) == 0x1_0000_0000,
        le_limit(8) == 0x1_0000_0000_0000_0000,
{
    reveal_with_fuel(le_limit, 9);
}

proof fn lemma_shift_first(v: int, k: nat)
    ensures
        le_shifted(v, k + 1) == le_shifted(v / 0x100, k),
    decreases k,
{
    assert(le_shifted(v, k + 1) == le_shifted(v, k) / 0x100);
    if k > 0 {
        lemma_shift_first(v, (k - 1) as nat);
        assert(le_shifted(v / 0x100, k) == le_shifted(v / 0x100, (k - 1) as nat) / 0x100);
    } else {
        assert(le_shifted(v, 0) == v);
        assert(le_shifted(v / 0x100, 0) == v / 0x100);
    }
}

/// The bytes that a number is put together from are the bytes of that
/// number, and it fits into as many bytes.
proof fn lemma_bytes_of_value(bytes: Seq<u8>, at: int, width: nat, k: int)
    requires
        0 <= at,
        at + width <= bytes.len(),
        0 <= k < width,
    ensures
        0 <= le_value(bytes, at, width) < le_limit(width),
        le_byte(le_value(bytes, at, width), k) == bytes[at + k],
    decreases width,
{
    let rest = le_value(bytes, at + 1, (width - 1) as nat);
    if width > 1 {
        lemma_bytes_of_value(bytes, at + 1, (width - 1) as nat, if k > 0 { k - 1 } else { 0 });
    }
    assert(0 <= rest < le_limit((width - 1) as nat));
    let v = le_value(bytes, at, width);
    assert(v == bytes[at] as int + 0x100 * rest);
    assert(v / 0x100 == rest);
    assert(v % 0x100 == bytes[at] as int);
    if k > 0 {
        lemma_shift_first(v, (k - 1) as nat);
    }
}

/// Two numbers that fit into `width` bytes and have the same bytes are the
/// same number.
proof fn lemma_same_bytes_same_value(a: int, b: int, width: nat)
    requires
        0 <= a < le_limit(width),
        0 <= b < le_limit(width),
        forall|k: int| 0 <= k < width ==> le_byte(a, k) == le_byte(b, k),
    ensures
        a == b,
    decreases width,
{
    if width > 0 {
        let a_rest = a / 0x100;
        let b_rest = b / 0x100;
        assert forall|k: int| 0 <= k < width - 1 implies le_byte(a_rest, k) == le_byte(
            b_rest,
            k,
        ) by {
            lemma_shift_first(a, k as nat);
            lemma_shift_first(b, k as nat);
            assert(le_byte(a, k + 1) == le_byte(b, k + 1));
        }
        lemma_same_bytes_same_value(a_rest, b_rest, (width - 1) as nat);
        assert(le_byte(a, 0) == le_byte(b, 0));
    }
}

proof fn lemma_value_fits(bytes: Seq<u8>, at: int, width: nat)
    requires
        0 <= at,
        at + width <= bytes.len(),
    ensures
        0 <= le_value(bytes, at, width) < le_limit(width),
{
    if width > 0 {
        lemma_bytes_of_value(bytes, at, width, 0);
    }
}

proof fn lemma_limit_grows(narrow: nat, wide: nat)
    requires
        narrow <= wide,
    ensures
        0 < le_limit(narrow) <= le_limit(wide),
    decreases wide,
{
    if narrow < wide {
        lemma_limit_grows(narrow, (wide - 1) as nat);
    } else if wide > 0 {
        lemma_limit_grows((narrow - 1) as nat, (wide - 1) as nat);
    }
}

/// Appends the `width` low bytes of `v`, least significant first.
fn push_le(out: &mut Vec<u8>, v: u64, width: usize)
    requires
        width <= 8,
    ensures
        final(out)@.len() == old(out)@.len() + width,
        forall|i: int| 0 <= i < old(out)@.len() ==> final(out)@[i] == old(out)@[i],
        forall|k: int|
            0 <= k < width ==> #[trigger] final(out)@[old(out)@.len() + k] == le_byte(v as int, k),
{
    let mut rest: u64 = v;
    let mut k: usize = 0;
    while k < width
        invariant
            k <= width,
            rest == le_shifted(v as int, k as nat),
            out@.len() == old(out)@.len() + k,
            forall|i: int| 0 <= i < old(out)@.len() ==> out@[i] == old(out)@[i],
            forall|j: int|
                0 <= j < k ==> #[trigger] out@[old(out)@.len() + j] == le_byte(v as int, j),
        decreases width - k,
    {
        out.push((rest % 0x100) as u8);
        rest = rest / 0x100;
        k += 1;
    }
}

/// Reads the number that the `width` bytes from `at` on spell, least
/// significant byte first.
fn read_le(bytes: &[u8], at: usize, width: usize) -> (v: u64)
    requires
        at + width <= bytes@.len(),
        width <= 8,
    ensures
        v == le_value(bytes@, at as int, width as nat),
        v < le_limit(width as nat),
        forall|k: int| 0 <= k < width ==> le_byte(v as int, k) == #[trigger] bytes@[at + k],
{
    let len: usize = bytes.len();
    let mut acc: u64 = 0;
    let mut k: usize = width;
    while k > 0
        invariant
            k <= width <= 8,
            at + width <= len == bytes@.len(),
            acc == le_value(bytes@, at + k, (width - k) as nat),
        decreases k,
    {
        proof {
            lemma_value_fits(bytes@, at + k, (width - k) as nat);
            lemma_limit_grows((width - k + 1) as nat, 8);
            lemma_limits();
        }
        k -= 1;
        acc = acc * 0x100 + bytes[at + k] as u64;
    }
    proof {
        lemma_value_fits(bytes@, at as int, width as nat);
        assert forall|k: int| 0 <= k < width implies le_byte(acc as int, k) == #[trigger] bytes@[at
            + k] by {
            lemma_bytes_of_value(bytes@, at as int, width as nat, k);
        }
    }
    acc
}

/// The code of a direction in a record.
pub fn direction_to_code(direction: Direction) -> (r: u8)
    ensures
        r == direction_code(direction),
        r <= 3,
{
    match direction {
        Direction::UP => 0,
        Direction::DOWN => 1,
        Direction::LEFT => 2,
        Direction::RIGHT => 3,
    }
}

/// The direction that a code stands for, if it is one of the four codes.
pub fn direction_from_code(code: u8) -> (r: Option<Direction>)
    ensures
        r.is_some() == (code <= 3),
        r matches Some(d) ==> direction_code(d) == code,
{
    if code == 0 {
        Some(Direction::UP)
    } else if code == 1 {
        Some(Direction::DOWN)
    } else if code == 2 {
        Some(Direction::LEFT)
    } else if code == 3 {
        Some(Direction::RIGHT)
    } else {
        None
    }
}

fn activity_to_byte(activity: i8) -> (r: u8)
    ensures
        r == activity_byte(activity),
{
    if activity >= 0 {
        activity as u8
    } else {
        (activity as i16 + 0x100) as u8
    }
}

fn activity_from_byte(byte: u8) -> (r: i8)
    ensures
        activity_byte(r) == byte,
{
    if byte < 0x80 {
        byte as i8
    } else {
        (byte as i16 - 0x100) as i8
    }
}

impl SerializedState {
    /// Writes the record of this snapshot.
    pub fn to_bytes(&self) -> (out: Vec<u8>)
        ensures
            out@ == self.encoded(),
            is_record(out@),
    {
        let mut out: Vec<u8> = Vec::new();
        let mut r: usize = 0;
        while r < MAPHEIGHT
            invariant
                r <= MAPHEIGHT,
                out@.len() == 4 * r,
                forall|i: int| 0 <= i < out@.len() ==> out@[i] == record_byte(*self, i),
            decreases MAPHEIGHT - r,
        {
            let ghost before = out@;
            push_le(&mut out, self.map_data.map[r] as u64, 4);
            assert forall|i: int| 0 <= i < out@.len() implies out@[i] == record_byte(*self, i) by {
                if i >= before.len() {
                    assert(out@[before.len() + (i - before.len())] == le_byte(
                        self.map_data.map[r as int] as int,
                        i - before.len(),
                    ));
                }
            }
            r += 1;
        }
        r = 0;
        while r < MAPHEIGHT
            invariant
                r <= MAPHEIGHT,
                out@.len() == BRIDGE_AT + 4 * r,
                forall|i: int| 0 <= i < out@.len() ==> out@[i] == record_byte(*self, i),
            decreases MAPHEIGHT - r,
        {
            let ghost before = out@;
            push_le(&mut out, self.map_data.bridge[r] as u64, 4);
            assert forall|i: int| 0 <= i < out@.len() implies out@[i] == record_byte(*self, i) by {
                if i >= before.len() {
                    assert(out@[before.len() + (i - before.len())] == le_byte(
                        self.map_data.bridge[r as int] as int,
                        i - before.len(),
                    ));
                }
            }
            r += 1;
        }
        let mut t: usize = 0;
        while t < TREECOUNT
            invariant
                t <= TREECOUNT,
                out@.len() == TREES_AT + TREE_LEN * t,
                forall|i: int| 0 <= i < out@.len() ==> out@[i] == record_byte(*self, i),
            decreases TREECOUNT - t,
        {
            let ghost before = out@;
            let tree = self.map_data.tree_positions[t];
            push_le(&mut out, tree.0 as u64, 2);
            let ghost middle = out@;
            push_le(&mut out, tree.1 as u64, 2);
            out.push(activity_to_byte(tree.2));
            assert forall|i: int| 0 <= i < out@.len() implies out@[i] == record_byte(*self, i) by {
                if i >= before.len() {
                    let k = i - before.len();
                    if k < 2 {
                        assert(middle[before.len() + k] == le_byte(tree.0 as int, k));
                    } else if k < 4 {
                        assert(out@[middle.len() + (k - 2)] == le_byte(tree.1 as int, k - 2));
                    }
                    assert(record_byte(*self, i) == tree_byte(tree, k));
                }
            }
            t += 1;
        }
        let mut kind: usize = 0;
        while kind < ITEM_KINDS
            invariant
                kind <= ITEM_KINDS,
                out@.len() == INVENTORY_AT + kind,
                forall|i: int| 0 <= i < out@.len() ==> out@[i] == record_byte(*self, i),
            decreases ITEM_KINDS - kind,
        {
            out.push(self.inventory.content[kind]);
            kind += 1;
        }
        out.push(self.player.0);
        out.push(self.player.1);
        out.push(direction_to_code(self.player.2));
        let ghost before = out@;
        push_le(&mut out, self.frame, 8);
        assert forall|i: int| 0 <= i < out@.len() implies out@[i] == record_byte(*self, i) by {
            if i >= before.len() {
                assert(out@[before.len() + (i - before.len())] == le_byte(
                    self.frame as int,
                    i - before.len(),
                ));
            }
        }
        assert(out@ =~= self.encoded());
        out
    }

    /// Reads a snapshot back from its record. Bytes that are no record, too
    /// few or too many or with a direction byte that is no direction, give
    /// nothing.
    pub fn from_bytes(bytes: &[u8]) -> (r: Option<SerializedState>)
        ensures
            decodes_to(bytes@, r),
    {
        if bytes.len() != RECORD_LEN {
            return None;
        }
        let direction = match direction_from_code(bytes[PLAYER_AT + 2]) {
            Some(d) => d,
            None => {
                return None;
            },
        };
        proof {
            lemma_limits();
        }
        let mut map: [u32; MAPHEIGHT] = [0u32;MAPHEIGHT];
        let mut bridge: [u32; MAPHEIGHT] = [0u32;MAPHEIGHT];
        let mut r: usize = 0;
        while r < MAPHEIGHT
            invariant
                r <= MAPHEIGHT,
                bytes@.len() == RECORD_LEN,
                le_limit(4) == 0x1_0000_0000,
                forall|j: int, k: int|
                    0 <= j < r && 0 <= k < 4 ==> le_byte(map[j] as int, k) == #[trigger] bytes@[4
                        * j + k],
                forall|j: int, k: int|
                    0 <= j < r && 0 <= k < 4 ==> le_byte(bridge[j] as int, k)
                        == #[trigger] bytes@[BRIDGE_AT + 4 * j + k],
            decreases MAPHEIGHT - r,
        {
            map[r] = read_le(bytes, 4 * r, 4) as u32;
            bridge[r] = read_le(bytes, BRIDGE_AT + 4 * r, 4) as u32;
            r += 1;
        }
        let mut tree_positions: [(u16, u16, i8); TREECOUNT] = [(0u16, 0u16, 0i8);TREECOUNT];
        let mut t: usize = 0;
        while t < TREECOUNT
            invariant
                t <= TREECOUNT,
                bytes@.len() == RECORD_LEN,
                le_limit(2) == 0x1_0000,
                forall|j: int, k: int|
                    0 <= j < t && 0 <= k < TREE_LEN ==> tree_byte(tree_positions[j], k)
                        == #[trigger] bytes@[TREES_AT + TREE_LEN * j + k],
            decreases TREECOUNT - t,
        {
            let at: usize = TREES_AT + TREE_LEN * t;
            let x: u16 = read_le(bytes, at, 2) as u16;
            let y: u16 = read_le(bytes, at + 2, 2) as u16;
            let activity: i8 = activity_from_byte(bytes[at + 4]);
            tree_positions[t] = (x, y, activity);
            proof {
                assert forall|j: int, k: int| 0 <= j < t + 1 && 0 <= k < TREE_LEN implies tree_byte(
                    tree_positions[j],
                    k,
                ) == #[trigger] bytes@[TREES_AT + TREE_LEN * j + k] by {
                    if j == t {
                        if k < 2 {
                            assert(le_byte(x as int, k) == bytes@[at + k]);
                        } else if k < 4 {
                            assert(le_byte(y as int, k - 2) == bytes@[at + 2 + (k - 2)]);
                        }
                    }
                }
            }
            t += 1;
        }
        let mut content: [u8; ITEM_KINDS] = [0u8;ITEM_KINDS];
        let mut kind: usize = 0;
        while kind < ITEM_KINDS
            invariant
                kind <= ITEM_KINDS,
                bytes@.len() == RECORD_LEN,
                forall|j: int| 0 <= j < kind ==> content[j] == bytes@[INVENTORY_AT + j],
            decreases ITEM_KINDS - kind,
        {
            content[kind] = bytes[INVENTORY_AT + kind];
            kind += 1;
        }
        let frame: u64 = read_le(bytes, FRAME_AT, 8);
        let s = SerializedState {
            map_data: MapData { map, bridge, tree_positions },
            inventory: Inventory { content },
            player: (bytes[PLAYER_AT], bytes[PLAYER_AT + 1], direction),
            frame,
        };
        proof {
            assert forall|i: int| 0 <= i < RECORD_LEN implies record_byte(s, i) == bytes@[i] by {
                if i < BRIDGE_AT {
                    assert(le_byte(map[i / 4] as int, i % 4) == bytes@[4 * (i / 4) + i % 4]);
                } else if i < TREES_AT {
                    let j = (i - BRIDGE_AT) / 4;
                    let k = (i - BRIDGE_AT) % 4;
                    assert(le_byte(bridge[j] as int, k) == bytes@[BRIDGE_AT + 4 * j + k]);
                } else if i < INVENTORY_AT {
                    let j = (i - TREES_AT) / (TREE_LEN as int);
                    let k = (i - TREES_AT) % (TREE_LEN as int);
                    assert(tree_byte(tree_positions[j], k) == bytes@[TREES_AT + TREE_LEN * j + k]);
                } else if i >= FRAME_AT {
                    assert(le_byte(frame as int, i - FRAME_AT) == bytes@[FRAME_AT + (i
                        - FRAME_AT)]);
                }
            }
            assert(s.encoded() =~= bytes@);
        }
        Some(s)
    }
}

/// No two snapshots share a record.
pub proof fn lemma_encoding_injective(a: SerializedState, b: SerializedState)
    requires
        a.encoded() == b.encoded(),
    ensures
        a == b,
{
    lemma_limits();
    assert forall|i: int| 0 <= i < RECORD_LEN implies record_byte(a, i) == record_byte(b, i) by {
        assert(a.encoded()[i] == record_byte(a, i));
        assert(b.encoded()[i] == record_byte(b, i));
    }
    assert forall|r: int| 0 <= r < MAPHEIGHT implies a.map_data.map[r] == b.map_data.map[r]
        && a.map_data.bridge[r] == b.map_data.bridge[r] by {
        let (wa, wb) = (a.map_data.map[r] as int, b.map_data.map[r] as int);
        assert forall|k: int| 0 <= k < 4 implies le_byte(wa, k) == le_byte(wb, k) by {
            assert(record_byte(a, 4 * r + k) == record_byte(b, 4 * r + k));
        }
        lemma_same_bytes_same_value(wa, wb, 4);
        let (ba, bb) = (a.map_data.bridge[r] as int, b.map_data.bridge[r] as int);
        assert forall|k: int| 0 <= k < 4 implies le_byte(ba, k) == le_byte(bb, k) by {
            assert(record_byte(a, BRIDGE_AT + 4 * r + k) == record_byte(b, BRIDGE_AT + 4 * r + k));
        }
        lemma_same_bytes_same_value(ba, bb, 4);
    }
    assert forall|t: int| 0 <= t < TREECOUNT implies a.map_data.tree_positions[t]
        == b.map_data.tree_positions[t] by {
        let (ta, tb) = (a.map_data.tree_positions[t], b.map_data.tree_positions[t]);
        assert forall|k: int| 0 <= k < TREE_LEN implies tree_byte(ta, k) == tree_byte(tb, k) by {
            assert(record_byte(a, TREES_AT + TREE_LEN * t + k) == record_byte(
                b,
                TREES_AT + TREE_LEN * t + k,
            ));
        }
        assert forall|k: int| 0 <= k < 2 implies le_byte(ta.0 as int, k) == le_byte(
            tb.0 as int,
            k,
        ) by {
            assert(tree_byte(ta, k) == tree_byte(tb, k));
        }
        lemma_same_bytes_same_value(ta.0 as int, tb.0 as int, 2);
        assert forall|k: int| 0 <= k < 2 implies le_byte(ta.1 as int, k) == le_byte(
            tb.1 as int,
            k,
        ) by {
            assert(tree_byte(ta, k + 2) == tree_byte(tb, k + 2));
        }
        lemma_same_bytes_same_value(ta.1 as int, tb.1 as int, 2);
        assert(tree_byte(ta, 4) == tree_byte(tb, 4));
    }
    assert forall|j: int| 0 <= j < ITEM_KINDS implies a.inventory.content[j]
        == b.inventory.content[j] by {
        assert(record_byte(a, INVENTORY_AT + j) == record_byte(b, INVENTORY_AT + j));
    }
    assert(record_byte(a, PLAYER_AT as int) == record_byte(b, PLAYER_AT as int));
    assert(record_byte(a, PLAYER_AT + 1) == record_byte(b, PLAYER_AT + 1));
    assert(record_byte(a, PLAYER_AT + 2) == record_byte(b, PLAYER_AT + 2));
    assert forall|k: int| 0 <= k < 8 implies le_byte(a.frame as int, k) == le_byte(
        b.frame as int,
        k,
    ) by {
        assert(record_byte(a, FRAME_AT + k) == record_byte(b, FRAME_AT + k));
    }
    lemma_same_bytes_same_value(a.frame as int, b.frame as int, 8);
    assert(a.map_data.map =~= b.map_data.map);
    assert(a.map_data.bridge =~= b.map_data.bridge);
    assert(a.map_data.tree_positions =~= b.map_data.tree_positions);
    assert(a.inventory.content =~= b.inventory.content);
}

/// A snapshot survives being written and read back: whatever reading the
/// record of a snapshot gives, it is that snapshot, every field of it.
pub proof fn lemma_snapshot_round_trip(s: SerializedState, read: Option<SerializedState>)
    requires
        decodes_to(s.encoded(), read),
    ensures
        read == Some(s),
{
    assert(s.encoded()[PLAYER_AT + 2] == record_byte(s, PLAYER_AT + 2));
    assert(is_record(s.encoded()));
    lemma_encoding_injective(read.unwrap(), s);
}

} // verus!
