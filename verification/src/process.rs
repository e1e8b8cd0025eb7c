use vstd::prelude::*;

verus! {

/// Size of a page in bytes.
pub const PAGE_SIZE: usize = 4096;

/// Microseconds in one second.
pub const USEC_PER_SEC: usize = 1_000_000;

/// A time as seconds and microseconds.
#[derive(Clone, Copy, PartialEq, Eq, Structural, Debug)]
pub struct TimeVal {
    /// Whole seconds.
    pub sec: usize,
    /// Microseconds within the second.
    pub usec: usize,
}

/// Access rights of a mapped area, as permission bits:
/// R = 2, W = 4, X = 8, U (user accessible) = 16.
#[derive(Clone, Copy, PartialEq, Eq, Structural, Debug)]
pub struct MapPermission {
    /// The permission bits.
    pub bits: u8,
}

/// An area of the address space to map: `[start, end)` with its rights.
#[derive(Clone, Copy, PartialEq, Eq, Structural, Debug)]
pub struct MapArea {
    /// First address of the area.
    pub start: usize,
    /// Address just past the area.
    pub end: usize,
    /// Rights of the area.
    pub perm: MapPermission,
}

/// `addr` is the first address of a page.
pub open spec fn page_aligned(addr: usize) -> bool {
    addr % PAGE_SIZE == 0
}

/// `port` asks for some rights and for nothing but read, write and execute.
pub open spec fn valid_port(port: usize) -> bool {
    &&& port & !0x7usize == 0
    &&& port & 0x7usize != 0
}

/// The time `us` microseconds after the epoch, as seconds and microseconds.
pub fn sys_get_time(us: usize) -> (r: TimeVal)
    ensures
        r.sec == us / USEC_PER_SEC,
        r.usec == us % USEC_PER_SEC,
        r.sec * USEC_PER_SEC + r.usec == us,
{
    TimeVal { sec: us / USEC_PER_SEC, usec: us % USEC_PER_SEC }
}

/// Checks a request to map `len` bytes from `start` with rights `port`
/// (bit 0 read, bit 1 write, bit 2 execute). Gives the area to map, user
/// accessible, or -1 when `start` is not page aligned or `port` is not a
/// valid set of rights.
pub fn sys_mmap(start: usize, len: usize, port: usize) -> (r: Result<MapArea, isize>)
    requires
        page_aligned(start) && valid_port(port) ==> start + len <= usize::MAX,
    ensures
        !page_aligned(start) || !valid_port(port) <==> r is Err,
        r matches Err(e) ==> e == -1,
        r matches Ok(area) ==> {
            &&& area.start == start
            &&& area.end == start + len
            &&& area.perm.bits == 16 + 2 * (port & 0x7usize)
        },
{
    if start % PAGE_SIZE != 0 {
        return Err(-1);
    }
    if port & !0x7usize != 0 || port & 0x7usize == 0 {
        return Err(-1);
    }
    let read_bit: u8 = if port & 1 != 0 {
        2
    } else {
        0
    };
    let write_bit: u8 = if port & 2 != 0 {
        4
    } else {
        0
    };
    let exec_bit: u8 = if port & 4 != 0 {
        8
    } else {
        0
    };
    let bits: u8 = 16u8 | read_bit | write_bit | exec_bit;
    proof {
        let r = port & 1 != 0;
        let w = port & 2 != 0;
        let x = port & 4 != 0;
        assert(port & 0x7usize == (if r { 1usize } else { 0usize }) + (if w { 2usize } else {
            0usize
        }) + (if x { 4usize } else { 0usize })) by (bit_vector)
            requires
                r == (port & 1 != 0),
                w == (port & 2 != 0),
                x == (port & 4 != 0),
        ;
        assert(bits == 16u8 + read_bit + write_bit + exec_bit) by (bit_vector)
            requires
                bits == 16u8 | read_bit | write_bit | exec_bit,
                read_bit == 2u8 || read_bit == 0u8,
                write_bit == 4u8 || write_bit == 0u8,
                exec_bit == 8u8 || exec_bit == 0u8,
        ;
    }
    Ok(MapArea { start, end: start + len, perm: MapPermission { bits } })
}

/// Checks a request to unmap `len` bytes from `start`. Gives the range
/// `[start, start + len)`, or -1 when `start` is not page aligned.
pub fn sys_munmap(start: usize, len: usize) -> (r: Result<(usize, usize), isize>)
    requires
        page_aligned(start) ==> start + len <= usize::MAX,
    ensures
        !page_aligned(start) <==> r is Err,
        r matches Err(e) ==> e == -1,
        r matches Ok(range) ==> range.0 == start && range.1 == start + len,
{
    if start % PAGE_SIZE != 0 {
        return Err(-1);
    }
    Ok((start, start + len))
}

/// The return value of `sbrk` given how moving the program break went:
/// the old break, or -1 when it could not move.
pub fn sys_sbrk(old_brk: Option<usize>) -> (r: isize)
    ensures
        old_brk matches Some(b) ==> r == b as isize,
        old_brk is None ==> r == -1,
{
    match old_brk {
        Some(b) => b as isize,
        None => -1,
    }
}

/// The time at which a sleep of `ms` milliseconds started at `now_ms` ends.
pub fn sys_sleep(now_ms: usize, ms: usize) -> (expire_ms: usize)
    requires
        now_ms + ms <= usize::MAX,
    ensures
        expire_ms == now_ms + ms,
{
    now_ms + ms
}

/// What translating the page of a traced address found: the physical page
/// and the rights of the entry.
#[derive(Clone, Copy, PartialEq, Eq, Structural, Debug)]
pub struct PageEntry {
    /// Physical page number.
    pub ppn: usize,
    /// The page is accessible from user mode.
    pub user: bool,
    /// The page is readable.
    pub readable: bool,
    /// The page is writable.
    pub writable: bool,
}

/// What the kernel is to do for a trace request.
#[derive(Clone, Copy, PartialEq, Eq, Structural, Debug)]
pub enum TraceAction {
    /// Read the byte at this physical address and return it.
    ReadByte(usize),
    /// Write this byte at this physical address and return 0.
    WriteByte(usize, u8),
    /// Return how many times the current task made system call `id`.
    CallCount(usize),
    /// Return -1.
    Fail,
}

/// Decides a trace request: 0 reads the user byte at address `id`, 1
/// writes `data` (its low byte) there, 2 asks for the count of system call
/// `id`. `entry` is what translating the page of `id` found, `None` when it
/// is not mapped. Reading needs a user readable page, writing a user
/// writable one; otherwise the request fails.
pub fn sys_trace(trace_request: usize, id: usize, data: usize, entry: Option<PageEntry>) -> (r:
    TraceAction)
    requires
        trace_request <= 2,
        entry matches Some(e) ==> e.ppn * PAGE_SIZE + PAGE_SIZE <= usize::MAX,
    ensures
        trace_request == 0 ==> r == match entry {
            Some(e) => if e.user && e.readable {
                TraceAction::ReadByte((e.ppn * PAGE_SIZE + id % PAGE_SIZE) as usize)
            } else {
                TraceAction::Fail
            },
            None => TraceAction::Fail,
        },
        trace_request == 1 ==> r == match entry {
            Some(e) => if e.user && e.writable {
                TraceAction::WriteByte((e.ppn * PAGE_SIZE + id % PAGE_SIZE) as usize, data as u8)
            } else {
                TraceAction::Fail
            },
            None => TraceAction::Fail,
        },
        trace_request == 2 ==> r == TraceAction::CallCount(id),
{
    if trace_request == 2 {
        return TraceAction::CallCount(id);
    }
    match entry {
        Some(e) => {
            let offset = id % PAGE_SIZE;
            if trace_request == 0 {
                if e.user && e.readable {
                    TraceAction::ReadByte(e.ppn * PAGE_SIZE + offset)
                } else {
                    TraceAction::Fail
                }
            } else {
                if e.user && e.writable {
                    TraceAction::WriteByte(e.ppn * PAGE_SIZE + offset, data as u8)
                } else {
                    TraceAction::Fail
                }
            }
        },
        None => TraceAction::Fail,
    }
}

} // verus!
