//! The resource fork: how it is opened, and where in its file it is read and written.
//!
//! In the CAP layout the fork is a file. In a container it is a region of a file, and a position in
//! the fork is not a position in the file. What is kept here is that difference; the reads, writes
//! and seeks themselves are the caller's.
use crate::hfs::double;
use crate::hfs::double::{find_descr, Descr, HDR_RSRC};
use crate::hfs::{Fork, HfsError};
use vstd::prelude::*;

verus! {

// ---------------------------------------------------------------------------------------------
// Options.
// ---------------------------------------------------------------------------------------------
/// How a fork is to be opened.
#[derive(Debug, Clone, Copy, PartialEq, Eq, Structural)]
pub struct ResourceOpenOptions {
    pub read: bool,
    pub write: bool,
    pub append: bool,
    pub truncate: bool,
    pub create: bool,
    pub create_new: bool,
    pub mode: Option<u32>,
    /// Flags of the system, where it has such.
    pub custom_flags: i32,
}

/// No option is set.
pub open spec fn no_options() -> ResourceOpenOptions {
    ResourceOpenOptions {
        read: false,
        write: false,
        append: false,
        truncate: false,
        create: false,
        create_new: false,
        mode: None,
        custom_flags: 0,
    }
}

impl Default for ResourceOpenOptions {
    fn default() -> (r: Self)
        ensures
            r == no_options(),
    {
        ResourceOpenOptions {
            read: false,
            write: false,
            append: false,
            truncate: false,
            create: false,
            create_new: false,
            mode: None,
            custom_flags: 0,
        }
    }
}

impl ResourceOpenOptions {
    /// No option is set.
    pub fn new() -> (r: Self)
        ensures
            r == no_options(),
    {
        ResourceOpenOptions::default()
    }

    /// For reading.
    pub fn read(&mut self, read: bool) -> (r: &mut Self)
        ensures
            *r == (ResourceOpenOptions { read, ..*old(self) }),
            *final(self) == *final(r),
    {
        self.read = read;
        self
    }

    /// For writing.
    pub fn write(&mut self, write: bool) -> (r: &mut Self)
        ensures
            *r == (ResourceOpenOptions { write, ..*old(self) }),
            *final(self) == *final(r),
    {
        self.write = write;
        self
    }

    /// For writing at the end.
    pub fn append(&mut self, append: bool) -> (r: &mut Self)
        ensures
            *r == (ResourceOpenOptions { append, ..*old(self) }),
            *final(self) == *final(r),
    {
        self.append = append;
        self
    }

    /// Emptied first.
    pub fn truncate(&mut self, truncate: bool) -> (r: &mut Self)
        ensures
            *r == (ResourceOpenOptions { truncate, ..*old(self) }),
            *final(self) == *final(r),
    {
        self.truncate = truncate;
        self
    }

    /// Made if it is not there.
    pub fn create(&mut self, create: bool) -> (r: &mut Self)
        ensures
            *r == (ResourceOpenOptions { create, ..*old(self) }),
            *final(self) == *final(r),
    {
        self.create = create;
        self
    }

    /// Made, and not there before.
    pub fn create_new(&mut self, create_new: bool) -> (r: &mut Self)
        ensures
            *r == (ResourceOpenOptions { create_new, ..*old(self) }),
            *final(self) == *final(r),
    {
        self.create_new = create_new;
        self
    }

    /// With this mode, if it is made.
    pub fn mode(&mut self, mode: u32) -> (r: &mut Self)
        ensures
            *r == (ResourceOpenOptions { mode: Some(mode), ..*old(self) }),
            *final(self) == *final(r),
    {
        self.mode = Some(mode);
        self
    }

    /// With these flags of the system.
    pub fn custom_flags(&mut self, flags: i32) -> (r: &mut Self)
        ensures
            *r == (ResourceOpenOptions { custom_flags: flags, ..*old(self) }),
            *final(self) == *final(r),
    {
        self.custom_flags = flags;
        self
    }

    /// The options could change a container as a whole.
    pub open spec fn whole_file(self) -> bool {
        self.truncate || self.append || self.create_new || self.custom_flags != 0
    }

    /// How the file is opened that holds the fork. The table of a container has to be read,
    /// whatever is asked of the fork in it; and to open a fork never makes a container. Options
    /// that could change the container as a whole are refused.
    pub fn file_options(&self, embedded: bool) -> (r: Result<ResourceOpenOptions, HfsError>)
        ensures
            match r {
                Ok(o) => !(embedded && self.whole_file()) && o == (ResourceOpenOptions {
                    read: self.read || embedded,
                    write: self.write || self.append,
                    create: self.create && !embedded,
                    ..*self
                }),
                Err(e) => embedded && self.whole_file() && e == HfsError::WholeFileOptions,
            },
    {
        if embedded && (self.truncate || self.append || self.create_new || self.custom_flags != 0) {
            return Err(HfsError::WholeFileOptions);
        }
        let mut o = *self;
        o.read = self.read || embedded;
        o.write = self.write || self.append;
        o.create = self.create && !embedded;
        Ok(o)
    }
}

// ---------------------------------------------------------------------------------------------
// The open fork.
// ---------------------------------------------------------------------------------------------
/// Where to go in a fork.
#[derive(Debug, Clone, Copy, PartialEq, Eq, Structural)]
pub enum SeekTo {
    /// To this position.
    Start(u64),
    /// This far behind the end.
    End(i64),
    /// This far from here.
    Current(i64),
}

/// An open fork. Its positions count from its own start.
#[derive(Debug, Clone, Copy, PartialEq, Eq, Structural)]
pub struct ResourceFork {
    /// Where in the file the fork starts.
    pub start: u64,
    pub position: u64,
    pub length: u64,
    pub readable: bool,
    pub writable: bool,
    pub append: bool,
    /// How long the fork may become.
    pub max_length: u64,
}

/// The smaller of two numbers.
pub open spec fn least(a: int, b: int) -> int {
    if a < b {
        a
    } else {
        b
    }
}

/// A number of bytes, no more than a buffer has and no more than are left.
fn limit(left: u64, buf_len: usize) -> (r: usize)
    ensures
        r == least(left as int, buf_len as int),
{
    if left < buf_len as u64 {
        left as usize
    } else {
        buf_len
    }
}

/// A position moved by some distance, if it stays one.
fn moved(base: u64, delta: i64) -> (r: Option<u64>)
    ensures
        r == (if 0 <= base + delta <= u64::MAX {
            Some((base + delta) as u64)
        } else {
            None
        }),
{
    let v: i128 = base as i128 + delta as i128;
    if v < 0 || v > u64::MAX as i128 {
        None
    } else {
        Some(v as u64)
    }
}

impl ResourceFork {
    /// Neither the fork nor the position in it is behind what the storage admits.
    pub open spec fn wf(self) -> bool {
        &&& self.length <= self.max_length
        &&& self.position <= self.max_length
    }

    /// An open fork, at its start, or at its end if it is for appending. The file is to be set to
    /// the position in it that is returned.
    pub fn new(
        start: u64,
        length: u64,
        readable: bool,
        writable: bool,
        append: bool,
        max_length: u64,
    ) -> (r: Result<(ResourceFork, u64), HfsError>)
        ensures
            ({
                let position: u64 = if append {
                    length
                } else {
                    0
                };
                match r {
                    Ok((f, physical)) => {
                        &&& length <= max_length
                        &&& physical == start + position
                        &&& f == (ResourceFork {
                            start,
                            position,
                            length,
                            readable,
                            writable,
                            append,
                            max_length,
                        })
                        &&& f.wf()
                    },
                    Err(e) => if length > max_length {
                        e == HfsError::LengthExceedsFormat
                    } else {
                        start + position > u64::MAX && e == HfsError::SeekOverflows
                    },
                }
            }),
    {
        if length > max_length {
            return Err(HfsError::LengthExceedsFormat);
        }
        let position: u64 = if append {
            length
        } else {
            0
        };
        match start.checked_add(position) {
            Some(physical) => Ok(
                (
                    ResourceFork {
                        start,
                        position,
                        length,
                        readable,
                        writable,
                        append,
                        max_length,
                    },
                    physical,
                ),
            ),
            None => Err(HfsError::SeekOverflows),
        }
    }

    /// The length of the fork, with what has been written through it. The table of a container
    /// knows of it only once it is recorded.
    pub fn len(&self) -> (r: u64)
        ensures
            r == self.length,
    {
        self.length
    }

    /// The fork is empty.
    pub fn is_empty(&self) -> (r: bool)
        ensures
            r == (self.length == 0),
    {
        self.length == 0
    }

    /// The position in the file of a position in the fork.
    pub fn physical_offset(&self, logical: u64) -> (r: Result<u64, HfsError>)
        ensures
            match r {
                Ok(p) => p == self.start + logical,
                Err(e) => self.start + logical > u64::MAX && e == HfsError::SeekOverflows,
            },
    {
        match self.start.checked_add(logical) {
            Some(p) => Ok(p),
            None => Err(HfsError::SeekOverflows),
        }
    }

    /// How many bytes to read into a buffer: none behind the end of the fork.
    pub fn read_limit(&self, buf_len: usize) -> (r: Result<usize, HfsError>)
        ensures
            match r {
                Ok(n) => self.readable && n == (if self.position < self.length {
                    least(self.length - self.position, buf_len as int)
                } else {
                    0
                }),
                Err(e) => !self.readable && e == HfsError::NotReadable,
            },
    {
        if !self.readable {
            return Err(HfsError::NotReadable);
        }
        Ok(limit(self.length.saturating_sub(self.position), buf_len))
    }

    /// Records that `n` bytes have been read.
    pub fn did_read(&mut self, n: usize)
        requires
            old(self).position + n <= old(self).length,
        ensures
            *final(self) == (ResourceFork {
                position: (old(self).position + n) as u64,
                ..*old(self)
            }),
            old(self).wf() ==> final(self).wf(),
    {
        self.position = self.position + n as u64;
    }

    /// Prepares a write: how many bytes of a buffer to write, and where the file is to be set
    /// first, if it is. A fork for appending is written at its end, wherever it was. Nothing is
    /// written behind what the storage admits.
    pub fn start_write(&mut self, buf_len: usize) -> (r: Result<(Option<u64>, usize), HfsError>)
        ensures
            ({
                let position = if old(self).writable && old(self).append {
                    old(self).length
                } else {
                    old(self).position
                };
                &&& *final(self) == (ResourceFork { position, ..*old(self) })
                &&& match r {
                    Ok((physical, n)) => {
                        &&& old(self).writable
                        &&& physical == (if old(self).append {
                            Some((old(self).start + old(self).length) as u64)
                        } else {
                            None
                        })
                        &&& old(self).append ==> old(self).start + old(self).length <= u64::MAX
                        &&& n == (if position < old(self).max_length {
                            least(old(self).max_length - position, buf_len as int)
                        } else {
                            0
                        })
                    },
                    Err(e) => if !old(self).writable {
                        e == HfsError::NotWritable
                    } else {
                        old(self).append && old(self).start + old(self).length > u64::MAX && e
                            == HfsError::SeekOverflows
                    },
                }
            }),
            old(self).wf() ==> final(self).wf(),
    {
        if !self.writable {
            return Err(HfsError::NotWritable);
        }
        let mut physical: Option<u64> = None;
        if self.append {
            self.position = self.length;
            match self.physical_offset(self.position) {
                Ok(p) => {
                    physical = Some(p);
                },
                Err(e) => {
                    return Err(e);
                },
            }
        }
        Ok((physical, limit(self.max_length.saturating_sub(self.position), buf_len)))
    }

    /// Records that `n` bytes have been written.
    pub fn did_write(&mut self, n: usize)
        requires
            old(self).position + n <= old(self).max_length,
        ensures
            ({
                let position = (old(self).position + n) as u64;
                *final(self) == (ResourceFork {
                    position,
                    length: if old(self).length < position {
                        position
                    } else {
                        old(self).length
                    },
                    ..*old(self)
                })
            }),
            old(self).wf() ==> final(self).wf(),
    {
        self.position = self.position + n as u64;
        if self.length < self.position {
            self.length = self.position;
        }
    }

    /// Where a seek leads: the position in the fork, if it is one.
    pub open spec fn seek_target(self, to: SeekTo) -> int {
        match to {
            SeekTo::Start(offset) => offset as int,
            SeekTo::End(delta) => self.length + delta,
            SeekTo::Current(delta) => self.position + delta,
        }
    }

    /// Where a seek leads: the position in the fork, and that in the file, to which the file is to
    /// be set.
    pub fn seek_to(&self, to: SeekTo) -> (r: Result<(u64, u64), HfsError>)
        ensures
            ({
                let target = self.seek_target(to);
                match r {
                    Ok((logical, physical)) => {
                        &&& 0 <= target <= self.max_length
                        &&& logical == target
                        &&& physical == self.start + target
                    },
                    Err(e) => if target < 0 || target > u64::MAX {
                        e == HfsError::SeekOutOfRange
                    } else if target > self.max_length {
                        e == HfsError::SeekExceedsFormat
                    } else {
                        self.start + target > u64::MAX && e == HfsError::SeekOverflows
                    },
                }
            }),
    {
        let logical: Option<u64> = match to {
            SeekTo::Start(offset) => Some(offset),
            SeekTo::End(delta) => moved(self.length, delta),
            SeekTo::Current(delta) => moved(self.position, delta),
        };
        match logical {
            Some(logical) => {
                if logical > self.max_length {
                    return Err(HfsError::SeekExceedsFormat);
                }
                match self.physical_offset(logical) {
                    Ok(physical) => Ok((logical, physical)),
                    Err(e) => Err(e),
                }
            },
            None => Err(HfsError::SeekOutOfRange),
        }
    }

    /// Records that the file has been set to the place of this position.
    pub fn did_seek(&mut self, logical: u64)
        requires
            logical <= old(self).max_length,
        ensures
            *final(self) == (ResourceFork { position: logical, ..*old(self) }),
            old(self).wf() ==> final(self).wf(),
    {
        self.position = logical;
    }
}

/// The region in which a fork of a container can be read and written holds no byte of the header
/// and none of another entry: a fork that something follows cannot grow.
pub proof fn fork_stays_inside(t: Seq<Descr>, file_len: int, i: int, j: int, f: ResourceFork)
    requires
        double::table_error(t, file_len) is None,
        double::table_end(t.len() as int) <= file_len,
        0 <= i < t.len(),
        0 <= j < t.len(),
        i != j,
        t[j].length > 0,
        f.start == t[i].offset,
        f.max_length == fork_room(t[i], file_len),
        f.max_length > 0,
    ensures
        double::table_end(t.len() as int) <= f.start,
        f.start + f.max_length <= t[j].offset || t[j].end() <= f.start,
{
    double::table_in_order(t, file_len);
    assert(double::entry_error(t[i], t.len() as int, file_len) is None);
    assert(double::entry_error(t[j], t.len() as int, file_len) is None);
    if i < j {
        assert(double::apart(t[i], t[j]));
    } else {
        assert(double::apart(t[j], t[i]));
    }
}

// ---------------------------------------------------------------------------------------------
// Opening.
// ---------------------------------------------------------------------------------------------
/// How long the fork of a descriptor may become. It can grow only at the end of the container.
pub open spec fn fork_room(d: Descr, file_len: int) -> u64 {
    if d.end() == file_len {
        u32::MAX as u64
    } else {
        d.length as u64
    }
}

/// A file that could not be opened only means that there is no fork: it is not there, and the
/// folder that its path names is. Any other failure is an error, that of a missing folder too.
pub fn is_absent(not_found: bool, names_folder: bool, folder_exists: bool) -> (r: bool)
    ensures
        r == (not_found && (names_folder ==> folder_exists)),
{
    not_found && (!names_folder || folder_exists)
}

/// Opens the fork that a file holds: all of a file of its own, or the region that the first
/// descriptor of a fork names. `None` if there is no such descriptor. The file is to be set to the
/// position that is returned.
pub fn resource_open(
    fork: Fork,
    descrs: &[Descr],
    file_len: u64,
    opts: &ResourceOpenOptions,
) -> (r: Result<Option<(ResourceFork, u64)>, HfsError>)
    ensures
        ({
            let i = double::first_with(descrs@, HDR_RSRC, 0);
            if fork == Fork::Cap {
                r == Ok::<_, HfsError>(
                    Some(
                        (
                            ResourceFork {
                                start: 0,
                                position: if opts.append {
                                    file_len
                                } else {
                                    0
                                },
                                length: file_len,
                                readable: opts.read,
                                writable: opts.write || opts.append,
                                append: opts.append,
                                max_length: u64::MAX,
                            },
                            if opts.append {
                                file_len
                            } else {
                                0
                            },
                        ),
                    ),
                )
            } else if i < 0 {
                r == Ok::<Option<(ResourceFork, u64)>, HfsError>(None)
            } else {
                r == Ok::<_, HfsError>(
                    Some(
                        (
                            ResourceFork {
                                start: descrs@[i].offset as u64,
                                position: 0,
                                length: descrs@[i].length as u64,
                                readable: opts.read,
                                writable: opts.write || opts.append,
                                append: false,
                                max_length: fork_room(descrs@[i], file_len as int),
                            },
                            descrs@[i].offset as u64,
                        ),
                    ),
                )
            }
        }),
        r matches Ok(Some((f, _))) ==> f.wf(),
{
    if fork == Fork::Cap {
        return match ResourceFork::new(
            0,
            file_len,
            opts.read,
            opts.write || opts.append,
            opts.append,
            u64::MAX,
        ) {
            Ok(f) => Ok(Some(f)),
            Err(e) => Err(e),
        };
    }
    let i: usize = match find_descr(descrs, HDR_RSRC) {
        Some(i) => i,
        None => {
            return Ok(None);
        },
    };
    let d = descrs[i];
    let room: u64 = if d.offset as u64 + d.length as u64 == file_len {
        u32::MAX as u64
    } else {
        d.length as u64
    };
    match ResourceFork::new(
        d.offset as u64,
        d.length as u64,
        opts.read,
        opts.write || opts.append,
        false,
        room,
    ) {
        Ok(f) => Ok(Some(f)),
        Err(e) => Err(e),
    }
}

/// The length of a fork: that of the file of its own, zero if there is none, or that in the first
/// descriptor of a fork, zero if there is none.
pub fn resource_len(fork: Fork, own_file: Option<u64>, descrs: Option<&[Descr]>) -> (r: u64)
    ensures
        r == (if fork == Fork::Cap {
            match own_file {
                Some(n) => n,
                None => 0,
            }
        } else {
            match descrs {
                Some(t) => {
                    let i = double::first_with(t@, HDR_RSRC, 0);
                    if i < 0 {
                        0
                    } else {
                        t@[i].length as u64
                    }
                },
                None => 0,
            }
        }),
{
    if fork == Fork::Cap {
        return match own_file {
            Some(n) => n,
            None => 0,
        };
    }
    match descrs {
        Some(t) => match find_descr(t, HDR_RSRC) {
            Some(i) => t[i].length as u64,
            None => 0,
        },
        None => 0,
    }
}

// ---------------------------------------------------------------------------------------------
// What calls do to each other.
// ---------------------------------------------------------------------------------------------
/// A seek that succeeds leads to the place it names: that far from the start, from the end or from
/// where the fork is. In the file that place lies as far behind the start of the fork. A seek
/// succeeds exactly if the place is neither before the fork nor behind what the storage admits,
/// and the file can be set to it.
pub proof fn seek_leads_there(f: ResourceFork, to: SeekTo, r: Result<(u64, u64), HfsError>)
    requires
        call_ensures(ResourceFork::seek_to, (&f, to), r),
    ensures
        ({
            let place: int = match to {
                SeekTo::Start(p) => p as int,
                SeekTo::End(d) => f.length + d,
                SeekTo::Current(d) => f.position + d,
            };
            &&& r matches Ok((logical, physical)) ==> logical == place && physical == f.start
                + place
            &&& r is Ok <==> 0 <= place <= f.max_length && f.start + place <= 0xffff_ffff_ffff_ffff
            &&& place < 0 ==> r == Err::<(u64, u64), HfsError>(HfsError::SeekOutOfRange)
        }),
{
}

/// Seeks add up: one by `a` and then one by `b` lead to where one by `a + b` leads, and one by
/// nothing stays where it is.
pub proof fn seeks_add_up(
    f: ResourceFork,
    a: i64,
    b: i64,
    c: i64,
    first: (u64, u64),
    g: ResourceFork,
    second: Result<(u64, u64), HfsError>,
    at_once: Result<(u64, u64), HfsError>,
    stay: Result<(u64, u64), HfsError>,
)
    requires
        c == a + b,
        call_ensures(ResourceFork::seek_to, (&f, SeekTo::Current(a)), Ok(first)),
        g == (ResourceFork { position: first.0, ..f }),
        call_ensures(ResourceFork::seek_to, (&g, SeekTo::Current(b)), second),
        call_ensures(ResourceFork::seek_to, (&f, SeekTo::Current(c)), at_once),
        call_ensures(ResourceFork::seek_to, (&g, SeekTo::Current(0)), stay),
    ensures
        second is Ok <==> at_once is Ok,
        second is Ok ==> second == at_once,
        stay == Ok::<(u64, u64), HfsError>(first),
{
}

/// What is read lies between the position and the end of the fork: never more than the buffer
/// holds, never a byte behind the end, and nothing less than either admits.
pub proof fn reads_stop_at_the_end(
    f: ResourceFork,
    room: usize,
    r: Result<usize, HfsError>,
)
    requires
        call_ensures(ResourceFork::read_limit, (&f, room), r),
    ensures
        r is Ok <==> f.readable,
        r matches Err(e) ==> e == HfsError::NotReadable,
        r matches Ok(n) ==> {
            &&& n <= room
            &&& f.position <= f.length ==> f.position + n <= f.length && (n == room || f.position
                + n == f.length)
            &&& f.position >= f.length ==> n == 0
        },
{
}

/// Reading moves the position by what was read, and changes nothing else.
pub proof fn reading_moves_on(f: &mut ResourceFork, n: usize)
    requires
        f.position + n <= f.length,
        call_ensures(ResourceFork::did_read, (f, n), ()),
    ensures
        final(f).position == old(f).position + n,
        final(f).start == old(f).start,
        final(f).length == old(f).length,
        final(f).max_length == old(f).max_length,
        final(f).readable == old(f).readable,
        final(f).writable == old(f).writable,
        final(f).append == old(f).append,
{
}

/// A write goes where the fork is, or to its end if it is for appending, and never behind what the
/// storage admits. To append, the file is set to the end first.
pub proof fn writes_stay_inside(
    f: &mut ResourceFork,
    room: usize,
    r: Result<(Option<u64>, usize), HfsError>,
)
    requires
        f.length <= f.max_length,
        f.position <= f.max_length,
        call_ensures(ResourceFork::start_write, (f, room), r),
    ensures
        ({
            let at = if old(f).append {
                old(f).length
            } else {
                old(f).position
            };
            &&& !old(f).writable <==> r == Err::<(Option<u64>, usize), HfsError>(
                HfsError::NotWritable,
            )
            &&& old(f).writable ==> final(f).position == at
            &&& old(f).writable && !old(f).append ==> r is Ok
            &&& final(f).length == old(f).length && final(f).start == old(f).start
            &&& r matches Ok((physical, n)) ==> {
                &&& at + n <= old(f).max_length
                &&& n <= room
                &&& n == room || at + n == old(f).max_length
                &&& old(f).append ==> physical is Some && physical->0 == old(f).start + at
                &&& !old(f).append ==> physical is None
            }
        }),
{
}

/// A fork grows exactly by what was written behind its end, and never shrinks.
pub proof fn writing_grows(f: &mut ResourceFork, n: usize)
    requires
        f.position + n <= f.max_length,
        call_ensures(ResourceFork::did_write, (f, n), ()),
    ensures
        final(f).position == old(f).position + n,
        final(f).length >= old(f).length,
        final(f).length >= final(f).position,
        final(f).length == old(f).length || final(f).length == final(f).position,
        final(f).start == old(f).start,
        final(f).max_length == old(f).max_length,
        final(f).append == old(f).append,
        final(f).readable == old(f).readable,
        final(f).writable == old(f).writable,
{
}

/// A file of its own is a fork as a whole: it starts where the file starts, is as long as the file
/// and may grow. It is read if asked for, and written if asked to write or to append; one for
/// appending is at its end, any other at its start.
pub proof fn own_file_is_the_fork(
    descrs: &[Descr],
    file_len: u64,
    opts: ResourceOpenOptions,
    r: Result<Option<(ResourceFork, u64)>, HfsError>,
)
    requires
        call_ensures(resource_open, (Fork::Cap, descrs, file_len, &opts), r),
    ensures
        r matches Ok(Some((f, physical))) && {
            &&& f.start == 0 && f.length == file_len && f.max_length == 0xffff_ffff_ffff_ffff
            &&& f.readable == opts.read
            &&& f.writable <==> opts.write || opts.append
            &&& f.append == opts.append
            &&& f.position == physical
            &&& opts.append ==> physical == file_len
            &&& !opts.append ==> physical == 0
        },
{
}

/// The fork of a container is the region that its first fork descriptor names; without such a
/// descriptor there is none. It may grow, up to 32 bits, only if nothing follows it in the file.
pub proof fn container_holds_the_fork(
    fork: Fork,
    descrs: &[Descr],
    file_len: u64,
    opts: ResourceOpenOptions,
    r: Result<Option<(ResourceFork, u64)>, HfsError>,
    i: int,
)
    requires
        fork != Fork::Cap,
        call_ensures(resource_open, (fork, descrs, file_len, &opts), r),
    ensures
        (forall|k: int| 0 <= k < descrs@.len() ==> (#[trigger] descrs@[k]).id != 2) ==> r == Ok::<
            Option<(ResourceFork, u64)>,
            HfsError,
        >(None),
        0 <= i < descrs@.len() && descrs@[i].id == 2 && (forall|k: int|
            0 <= k < i ==> (#[trigger] descrs@[k]).id != 2) ==> (r matches Ok(Some((f, physical)))
            && {
            &&& f.start == descrs@[i].offset && physical == f.start && f.position == 0
            &&& f.length == descrs@[i].length
            &&& descrs@[i].offset + descrs@[i].length == file_len ==> f.max_length == 0xffff_ffff
            &&& descrs@[i].offset + descrs@[i].length != file_len ==> f.max_length == f.length
            &&& f.readable == opts.read
            &&& f.writable <==> opts.write || opts.append
            &&& !f.append
        }),
{
    lemma_first_fork(descrs@, i, 0);
}

proof fn lemma_first_fork(t: Seq<Descr>, i: int, from: int)
    requires
        0 <= from <= t.len(),
    ensures
        (forall|k: int| from <= k < t.len() ==> (#[trigger] t[k]).id != 2) ==> double::first_with(
            t,
            HDR_RSRC,
            from,
        ) < 0,
        from <= i < t.len() && t[i].id == 2 && (forall|k: int|
            from <= k < i ==> (#[trigger] t[k]).id != 2) ==> double::first_with(t, HDR_RSRC, from)
            == i,
    decreases t.len() - from,
{
    if from < t.len() {
        lemma_first_fork(t, i, from + 1);
    }
}

/// The length of a fork is that of its file, or that in the first fork descriptor, and zero where
/// there is neither.
pub proof fn fork_length_is_stated(
    fork: Fork,
    own_file: Option<u64>,
    descrs: Option<&[Descr]>,
    r: u64,
    i: int,
)
    requires
        call_ensures(resource_len, (fork, own_file, descrs), r),
    ensures
        fork == Fork::Cap && own_file is None ==> r == 0,
        fork == Fork::Cap && own_file is Some ==> r == own_file->0,
        fork != Fork::Cap && descrs is None ==> r == 0,
        fork != Fork::Cap && descrs is Some && (forall|k: int|
            0 <= k < descrs->0@.len() ==> (#[trigger] descrs->0@[k]).id != 2) ==> r == 0,
        fork != Fork::Cap && descrs is Some && 0 <= i < descrs->0@.len() && descrs->0@[i].id == 2
            && (forall|k: int| 0 <= k < i ==> (#[trigger] descrs->0@[k]).id != 2) ==> r
            == descrs->0@[i].length,
{
    if let Some(t) = descrs {
        lemma_first_fork(t@, i, 0);
    }
}

/// A container is opened for reading whatever is asked, is never made, and is refused to whoever
/// asks to truncate it, to append to it, to make it anew or for flags of the system. A file of its
/// own is opened as asked; to append is to write.
pub proof fn containers_are_never_changed_as_a_whole(
    o: ResourceOpenOptions,
    embedded: bool,
    r: Result<ResourceOpenOptions, HfsError>,
)
    requires
        call_ensures(ResourceOpenOptions::file_options, (&o, embedded), r),
    ensures
        r is Err <==> embedded && (o.truncate || o.append || o.create_new || o.custom_flags != 0),
        r matches Err(e) ==> e == HfsError::WholeFileOptions,
        r matches Ok(p) ==> {
            &&& embedded ==> p.read && !p.create && !p.truncate && !p.append && !p.create_new
                && p.custom_flags == 0
            &&& !embedded ==> p.read == o.read && p.create == o.create && p.truncate == o.truncate
                && p.append == o.append && p.create_new == o.create_new && p.custom_flags
                == o.custom_flags
            &&& p.write <==> o.write || o.append
            &&& p.mode == o.mode
        },
{
}

/// A file that cannot be opened counts as an absent fork only where it is not there and its folder
/// is.
pub proof fn absent_means_only_the_file(
    not_found: bool,
    names_folder: bool,
    folder_exists: bool,
    r: bool,
)
    requires
        call_ensures(is_absent, (not_found, names_folder, folder_exists), r),
    ensures
        !not_found ==> !r,
        names_folder && !folder_exists ==> !r,
        not_found && folder_exists ==> r,
        not_found && !names_folder ==> r,
{
}

/// A place in the fork and the place in the file lie one start apart.
pub proof fn places_lie_one_start_apart(f: ResourceFork, at: u64, r: Result<u64, HfsError>)
    requires
        call_ensures(ResourceFork::physical_offset, (&f, at), r),
    ensures
        r is Ok <==> f.start + at <= 0xffff_ffff_ffff_ffff,
        r matches Ok(p) ==> p - f.start == at,
        r matches Err(e) ==> e == HfsError::SeekOverflows,
{
}

/// A fork is opened at its start, or at its end for appending, unless it is longer than its storage
/// admits.
pub proof fn fork_opens_in_place(
    start: u64,
    length: u64,
    readable: bool,
    writable: bool,
    append: bool,
    max_length: u64,
    r: Result<(ResourceFork, u64), HfsError>,
)
    requires
        call_ensures(
            ResourceFork::new,
            (start, length, readable, writable, append, max_length),
            r,
        ),
    ensures
        length > max_length <==> r == Err::<(ResourceFork, u64), HfsError>(
            HfsError::LengthExceedsFormat,
        ),
        length <= max_length && start + length <= 0xffff_ffff_ffff_ffff ==> r is Ok,
        r matches Ok((f, physical)) ==> {
            &&& f.start == start && f.length == length && f.max_length == max_length
            &&& f.readable == readable && f.writable == writable && f.append == append
            &&& append ==> f.position == length
            &&& !append ==> f.position == 0
            &&& physical == start + f.position
        },
{
}

/// Each option is set by its own call, and none by another.
pub proof fn options_are_set(
    a: &mut ResourceOpenOptions,
    a2: &mut ResourceOpenOptions,
    b: &mut ResourceOpenOptions,
    b2: &mut ResourceOpenOptions,
    c: &mut ResourceOpenOptions,
    c2: &mut ResourceOpenOptions,
    d: &mut ResourceOpenOptions,
    d2: &mut ResourceOpenOptions,
    on: bool,
)
    requires
        call_ensures(ResourceOpenOptions::read, (a, on), a2),
        call_ensures(ResourceOpenOptions::write, (b, on), b2),
        call_ensures(ResourceOpenOptions::append, (c, on), c2),
        call_ensures(ResourceOpenOptions::truncate, (d, on), d2),
    ensures
        old(a2).read == on && old(a2).write == old(a).write && old(a2).append == old(a).append
            && old(a2).truncate == old(a).truncate && old(a2).create == old(a).create
            && old(a2).create_new == old(a).create_new && old(a2).mode == old(a).mode
            && old(a2).custom_flags == old(a).custom_flags,
        old(b2).write == on && old(b2).read == old(b).read && old(b2).append == old(b).append
            && old(b2).truncate == old(b).truncate && old(b2).create == old(b).create
            && old(b2).create_new == old(b).create_new && old(b2).mode == old(b).mode
            && old(b2).custom_flags == old(b).custom_flags,
        old(c2).append == on && old(c2).read == old(c).read && old(c2).write == old(c).write
            && old(c2).truncate == old(c).truncate && old(c2).create == old(c).create
            && old(c2).create_new == old(c).create_new && old(c2).mode == old(c).mode
            && old(c2).custom_flags == old(c).custom_flags,
        old(d2).truncate == on && old(d2).read == old(d).read && old(d2).write == old(d).write
            && old(d2).append == old(d).append && old(d2).create == old(d).create
            && old(d2).create_new == old(d).create_new && old(d2).mode == old(d).mode
            && old(d2).custom_flags == old(d).custom_flags,
        *final(a) == *final(a2) && *final(b) == *final(b2),
        *final(c) == *final(c2) && *final(d) == *final(d2),
{
}

/// The options for files that are made are set by their own calls, too, and there are none at first.
pub proof fn more_options_are_set(
    a: &mut ResourceOpenOptions,
    a2: &mut ResourceOpenOptions,
    b: &mut ResourceOpenOptions,
    b2: &mut ResourceOpenOptions,
    c: &mut ResourceOpenOptions,
    c2: &mut ResourceOpenOptions,
    d: &mut ResourceOpenOptions,
    d2: &mut ResourceOpenOptions,
    on: bool,
    mode: u32,
    flags: i32,
    none: ResourceOpenOptions,
)
    requires
        call_ensures(ResourceOpenOptions::create, (a, on), a2),
        call_ensures(ResourceOpenOptions::create_new, (b, on), b2),
        call_ensures(ResourceOpenOptions::mode, (c, mode), c2),
        call_ensures(ResourceOpenOptions::custom_flags, (d, flags), d2),
        call_ensures(ResourceOpenOptions::new, (), none),
    ensures
        old(a2).create == on && old(a2).read == old(a).read && old(a2).write == old(a).write
            && old(a2).append == old(a).append && old(a2).truncate == old(a).truncate
            && old(a2).create_new == old(a).create_new && old(a2).mode == old(a).mode
            && old(a2).custom_flags == old(a).custom_flags,
        old(b2).create_new == on && old(b2).read == old(b).read && old(b2).write == old(b).write
            && old(b2).append == old(b).append && old(b2).truncate == old(b).truncate
            && old(b2).create == old(b).create && old(b2).mode == old(b).mode
            && old(b2).custom_flags == old(b).custom_flags,
        old(c2).mode == Some(mode) && old(c2).read == old(c).read && old(c2).write == old(c).write
            && old(c2).append == old(c).append && old(c2).truncate == old(c).truncate
            && old(c2).create == old(c).create && old(c2).create_new == old(c).create_new
            && old(c2).custom_flags == old(c).custom_flags,
        old(d2).custom_flags == flags && old(d2).read == old(d).read && old(d2).write == old(d).write && old(d2).append == old(d).append && old(d2).truncate == old(d).truncate
            && old(d2).create == old(d).create && old(d2).create_new == old(d).create_new
            && old(d2).mode == old(d).mode,
        *final(a) == *final(a2) && *final(b) == *final(b2),
        *final(c) == *final(c2) && *final(d) == *final(d2),
        !none.read && !none.write && !none.append && !none.truncate && !none.create
            && !none.create_new && none.mode is None && none.custom_flags == 0,
{
}

/// A fork is as long as is known of it, and a position that was reached is where it stands; nothing
/// else changes by that.
pub proof fn forks_know_where_they_stand(
    f: &mut ResourceFork,
    g: ResourceFork,
    logical: u64,
    len: u64,
    empty: bool,
)
    requires
        logical <= f.max_length,
        call_ensures(ResourceFork::did_seek, (f, logical), ()),
        call_ensures(ResourceFork::len, (&g,), len),
        call_ensures(ResourceFork::is_empty, (&g,), empty),
    ensures
        final(f).position == logical,
        final(f).start == old(f).start && final(f).length == old(f).length && final(f).max_length
            == old(f).max_length,
        len == g.length,
        empty <==> len == 0,
{
}

} // verus!
