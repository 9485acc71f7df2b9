//! Files whose operations do not block scheduling threads.

use vstd::prelude::*;

use crate::io::operation::Operation;
use crate::io::pool;
use crate::io::pool::Call;
use crate::io::uring::{Entry, Request};

verus! {

/// Flags that the system takes to open a file.
#[derive(Debug, Clone, Copy, PartialEq, Eq, Structural)]
pub struct OpenFlags {
    pub rdonly: i32,
    pub wronly: i32,
    pub rdwr: i32,
    pub creat: i32,
    pub excl: i32,
    pub trunc: i32,
    pub append: i32,
}

/// Types of files in the mode that the system gives of a file.
#[derive(Debug, Clone, Copy, PartialEq, Eq, Hash, Structural)]
pub struct FileKinds {
    /// Bits that hold the type.
    pub mask: u32,
    pub directory: u32,
    pub regular: u32,
    pub symlink: u32,
}

/// Options and flags which can be used to configure how a file is opened.
#[derive(Clone, Debug)]
pub struct OpenOptions {
    read: bool,
    write: bool,
    append: bool,
    truncate: bool,
    create: bool,
    create_new: bool,
    mode: u32,
}

/// Values of [OpenOptions].
pub struct OptionsView {
    pub read: bool,
    pub write: bool,
    pub append: bool,
    pub truncate: bool,
    pub create: bool,
    pub create_new: bool,
    pub mode: u32,
}

impl View for OpenOptions {
    type V = OptionsView;

    closed spec fn view(&self) -> OptionsView {
        OptionsView {
            read: self.read,
            write: self.write,
            append: self.append,
            truncate: self.truncate,
            create: self.create,
            create_new: self.create_new,
            mode: self.mode,
        }
    }
}

impl OptionsView {
    pub open spec fn blank() -> Self {
        OptionsView {
            read: false,
            write: false,
            append: false,
            truncate: false,
            create: false,
            create_new: false,
            mode: 0o666,
        }
    }

    /// Flags of the access that is asked for.
    pub open spec fn access(self, system: OpenFlags) -> i32 {
        if self.append {
            (if self.read {
                system.rdwr
            } else {
                system.wronly
            }) | system.append
        } else if self.read && self.write {
            system.rdwr
        } else if self.write {
            system.wronly
        } else if self.read {
            system.rdonly
        } else {
            0
        }
    }

    /// All flags.
    pub open spec fn flags(self, system: OpenFlags) -> i32 {
        self.access(system) | (if self.truncate {
            system.trunc
        } else {
            0
        }) | (if self.create || self.create_new {
            system.creat
        } else {
            0
        }) | (if self.create_new {
            system.excl
        } else {
            0
        })
    }

    /// Whether the options go together: there is some access, a file is truncated or created only
    /// with write access, and an existing file is not truncated to append to it.
    pub open spec fn valid(self) -> bool {
        &&& self.read || self.write || self.append
        &&& self.truncate || self.create || self.create_new ==> self.write || self.append
        &&& self.append && self.truncate ==> self.create_new
    }
}

/// Why a file cannot be opened.
#[derive(Debug, Clone, Copy, PartialEq, Eq, Structural)]
pub enum OpenError {
    /// The options do not go together.
    InvalidOptions,
    /// The path holds a zero byte.
    InvalidPath,
}

/// What it takes to open a file.
pub struct Opening {
    /// The path and a zero byte.
    pub path: Vec<u8>,
    pub flags: i32,
    pub mode: u32,
}

impl OpenOptions {
    /// Creates a blank new set of options.
    pub fn new() -> (options: Self)
        ensures
            options@ == OptionsView::blank(),
    {
        OpenOptions {
            read: false,
            write: false,
            append: false,
            truncate: false,
            create: false,
            create_new: false,
            mode: 0o666,
        }
    }

    /// Sets the option for read access.
    pub fn read(&mut self, read: bool) -> (options: &mut Self)
        ensures
            options@ == (OptionsView { read, ..old(self)@ }),
            *final(self) == *final(options),
    {
        self.read = read;
        self
    }

    /// Sets the option for write access.
    pub fn write(&mut self, write: bool) -> (options: &mut Self)
        ensures
            options@ == (OptionsView { write, ..old(self)@ }),
            *final(self) == *final(options),
    {
        self.write = write;
        self
    }

    /// Sets the option for the append mode.
    pub fn append(&mut self, append: bool) -> (options: &mut Self)
        ensures
            options@ == (OptionsView { append, ..old(self)@ }),
            *final(self) == *final(options),
    {
        self.append = append;
        self
    }

    /// Sets the option for truncating a previous file.
    pub fn truncate(&mut self, truncate: bool) -> (options: &mut Self)
        ensures
            options@ == (OptionsView { truncate, ..old(self)@ }),
            *final(self) == *final(options),
    {
        self.truncate = truncate;
        self
    }

    /// Sets the option to create a new file, or open it if it already exists.
    pub fn create(&mut self, create: bool) -> (options: &mut Self)
        ensures
            options@ == (OptionsView { create, ..old(self)@ }),
            *final(self) == *final(options),
    {
        self.create = create;
        self
    }

    /// Sets the option to create a new file, failing if it already exists.
    pub fn create_new(&mut self, create_new: bool) -> (options: &mut Self)
        ensures
            options@ == (OptionsView { create_new, ..old(self)@ }),
            *final(self) == *final(options),
    {
        self.create_new = create_new;
        self
    }

    /// Flags of these options.
    pub fn flags(&self, system: &OpenFlags) -> (flags: i32)
        ensures
            flags == self@.flags(*system),
    {
        let access: i32 = match (self.read, self.write, self.append) {
            (true, true, false) => system.rdwr,
            (true, false, false) => system.rdonly,
            (false, true, false) => system.wronly,
            (true, _, true) => system.rdwr | system.append,
            (false, _, true) => system.wronly | system.append,
            _ => 0,
        };
        let truncate: i32 = if self.truncate {
            system.trunc
        } else {
            0
        };
        let create: i32 = if self.create || self.create_new {
            system.creat
        } else {
            0
        };
        let create_new: i32 = if self.create_new {
            system.excl
        } else {
            0
        };
        access | truncate | create | create_new
    }

    /// Checks whether these options go together.
    pub fn is_valid(&self) -> (valid: bool)
        ensures
            valid == self@.valid(),
    {
        let write = self.write || self.append;
        let access = self.read || write;
        let alters = self.truncate || self.create || self.create_new;
        access && (!alters || write) && !(self.append && self.truncate && !self.create_new)
    }

    /// Finds out what it takes to open a file with these options.
    pub fn open(&self, path: &Vec<u8>, system: &OpenFlags) -> (opening: Result<
        Opening,
        OpenError,
    >)
        ensures
            match opening {
                Ok(opening) => {
                    &&& self@.valid()
                    &&& !path@.contains(0)
                    &&& opening.path@ == path@.push(0)
                    &&& opening.flags == self@.flags(*system)
                    &&& opening.mode == self@.mode
                },
                Err(OpenError::InvalidPath) => path@.contains(0),
                Err(OpenError::InvalidOptions) => !path@.contains(0) && !self@.valid(),
            },
    {
        let mut buffer: Vec<u8> = Vec::with_capacity(path.len());
        let mut i: usize = 0;
        while i < path.len()
            invariant
                i <= path@.len(),
                buffer@ == path@.take(i as int),
                forall|k: int| 0 <= k < i ==> path@[k] != 0,
            decreases path@.len() - i,
        {
            let byte: u8 = path[i];
            if byte == 0 {
                assert(path@[i as int] == 0);
                return Err(OpenError::InvalidPath);
            }
            buffer.push(byte);
            assert(buffer@ =~= path@.take(i + 1));
            i = i + 1;
        }
        assert(path@.take(i as int) =~= path@);
        if !self.is_valid() {
            return Err(OpenError::InvalidOptions);
        }
        buffer.push(0);
        Ok(Opening { path: buffer, flags: self.flags(system), mode: self.mode })
    }
}

/// Flags to open a file for reading, to create or truncate one, and to create a new one.
pub proof fn law_flags(system: OpenFlags)
    ensures
        (OptionsView { read: true, ..OptionsView::blank() }).flags(system) == system.rdonly,
        (OptionsView {
            write: true,
            create: true,
            truncate: true,
            ..OptionsView::blank()
        }).flags(system) == system.wronly | system.creat | system.trunc,
        (OptionsView { write: true, create_new: true, ..OptionsView::blank() }).flags(system)
            == system.wronly | system.creat | system.excl,
{
    let OpenFlags { rdonly, wronly, rdwr: _, creat, excl, trunc, append: _ } = system;
    assert(rdonly | 0 | 0 | 0 == rdonly) by (bit_vector);
    assert(wronly | trunc | creat | 0 == wronly | creat | trunc) by (bit_vector);
    assert(wronly | 0 | creat | excl == wronly | creat | excl) by (bit_vector);
}

/// Operations on files, by their descriptors.
pub struct File {
    fd: i32,
}

/// Length of a buffer as far as one operation can use it.
pub open spec fn spec_len(len: usize) -> usize {
    if len > i32::MAX {
        i32::MAX as usize
    } else {
        len
    }
}

impl View for File {
    type V = i32;

    closed spec fn view(&self) -> i32 {
        self.fd
    }
}

impl File {
    pub fn new(fd: i32) -> (file: Self)
        ensures
            file@ == fd,
    {
        File { fd }
    }

    pub fn fd(&self) -> (fd: i32)
        ensures
            fd == self@,
    {
        self.fd
    }

    /// Options to open a file for reading.
    pub fn open() -> (options: OpenOptions)
        ensures
            options@.valid(),
            options@ == (OptionsView { read: true, ..OptionsView::blank() }),
    {
        let mut options = OpenOptions::new();
        options.read(true);
        options
    }

    /// Options to create a file, or truncate it, for writing.
    pub fn create() -> (options: OpenOptions)
        ensures
            options@.valid(),
            options@ == (OptionsView {
                write: true,
                create: true,
                truncate: true,
                ..OptionsView::blank()
            }),
    {
        let mut options = OpenOptions::new();
        options.write(true);
        options.create(true);
        options.truncate(true);
        options
    }

    /// Options to create a new file for writing.
    pub fn create_new() -> (options: OpenOptions)
        ensures
            options@.valid(),
            options@ == (OptionsView { write: true, create_new: true, ..OptionsView::blank() }),
    {
        let mut options = OpenOptions::new();
        options.write(true);
        options.create_new(true);
        options
    }

    /// Operation that reads to a buffer.
    pub fn read(&self, buf: usize, len: usize) -> (operation: Operation)
        ensures
            operation == (Operation::Read { fd: self@, buf, len: spec_len(len), offset: -1isize }),
    {
        let len: usize = if len > i32::MAX as usize {
            i32::MAX as usize
        } else {
            len
        };
        Operation::Read { fd: self.fd, buf, len, offset: -1 }
    }

    /// Operation that writes from a buffer.
    pub fn write(&self, buf: usize, len: usize) -> (operation: Operation)
        ensures
            operation == (Operation::Write { fd: self@, buf, len: spec_len(len), offset: -1isize }),
    {
        let len: usize = if len > i32::MAX as usize {
            i32::MAX as usize
        } else {
            len
        };
        Operation::Write { fd: self.fd, buf, len, offset: -1 }
    }

    /// Operation that syncs content and metadata.
    pub fn sync_all(&self) -> (operation: Operation)
        ensures
            operation == (Operation::Fsync { fd: self@, only_data: false }),
    {
        Operation::Fsync { fd: self.fd, only_data: false }
    }

    /// Operation that syncs content.
    pub fn sync_data(&self) -> (operation: Operation)
        ensures
            operation == (Operation::Fsync { fd: self@, only_data: true }),
    {
        Operation::Fsync { fd: self.fd, only_data: true }
    }

    /// Operation that truncates or extends.
    pub fn set_len(&self, size: u64) -> (operation: Operation)
        ensures
            operation == (Operation::Truncate { fd: self@, size }),
    {
        Operation::Truncate { fd: self.fd, size }
    }

    /// Operation that queries metadata of this descriptor, given an empty path and memory for them.
    pub fn metadata(&self, path: usize, metadata: usize) -> (operation: Operation)
        ensures
            operation == (Operation::Stat { fd: self@, path, metadata }),
    {
        Operation::Stat { fd: self.fd, path, metadata }
    }
}

/// Every read and write fits the kernel's queue.
pub proof fn law_length_fits(len: usize)
    ensures
        spec_len(len) <= i32::MAX,
        spec_len(len) <= len,
        len <= i32::MAX ==> spec_len(len) == len,
{
}

/// Type of a file.
#[derive(Copy, Clone, PartialEq, Eq, Hash, Debug)]
pub struct FileType {
    mode: u32,
    kinds: FileKinds,
}

/// Values of [FileType].
pub struct FileTypeView {
    pub mode: u32,
    pub kinds: FileKinds,
}

impl FileTypeView {
    pub open spec fn is_dir(self) -> bool {
        self.mode & self.kinds.mask == self.kinds.directory
    }

    pub open spec fn is_file(self) -> bool {
        self.mode & self.kinds.mask == self.kinds.regular
    }

    pub open spec fn is_symlink(self) -> bool {
        self.mode & self.kinds.mask == self.kinds.symlink
    }
}

impl View for FileType {
    type V = FileTypeView;

    closed spec fn view(&self) -> FileTypeView {
        FileTypeView { mode: self.mode, kinds: self.kinds }
    }
}

impl FileType {
    /// Tests whether this file type represents a directory.
    pub fn is_dir(&self) -> (is: bool)
        ensures
            is == self@.is_dir(),
    {
        (self.mode & self.kinds.mask) == self.kinds.directory
    }

    /// Tests whether this file type represents a regular file.
    pub fn is_file(&self) -> (is: bool)
        ensures
            is == self@.is_file(),
    {
        (self.mode & self.kinds.mask) == self.kinds.regular
    }

    /// Tests whether this file type represents a symbolic link.
    pub fn is_symlink(&self) -> (is: bool)
        ensures
            is == self@.is_symlink(),
    {
        (self.mode & self.kinds.mask) == self.kinds.symlink
    }
}

/// A file is at most one of directory, regular file and symbolic link, where the system tells these
/// apart.
pub proof fn law_file_type_excludes(file_type: FileTypeView)
    requires
        file_type.kinds.directory != file_type.kinds.regular,
        file_type.kinds.directory != file_type.kinds.symlink,
        file_type.kinds.regular != file_type.kinds.symlink,
    ensures
        !(file_type.is_dir() && file_type.is_file()),
        !(file_type.is_dir() && file_type.is_symlink()),
        !(file_type.is_file() && file_type.is_symlink()),
{
}

/// Instant as seconds since the epoch, which are negative before it, and nanoseconds after that.
#[derive(Debug, Clone, Copy, PartialEq, Eq, Structural)]
pub struct Timestamp {
    pub secs: i64,
    pub nanos: u32,
}

/// Metadata information about a file.
#[derive(Debug, Clone, Copy, PartialEq, Eq, Structural)]
pub struct Metadata {
    pub mode: u32,
    pub kinds: FileKinds,
    pub size: u64,
    pub accessed: Timestamp,
    pub modified: Timestamp,
    pub created: Timestamp,
}

impl Metadata {
    pub open spec fn spec_file_type(self) -> FileTypeView {
        FileTypeView { mode: self.mode, kinds: self.kinds }
    }

    /// Returns the file type for this metadata.
    pub fn file_type(&self) -> (file_type: FileType)
        ensures
            file_type@ == self.spec_file_type(),
    {
        FileType { mode: self.mode, kinds: self.kinds }
    }

    /// Returns true if this metadata is for a directory.
    pub fn is_dir(&self) -> (is: bool)
        ensures
            is == self.spec_file_type().is_dir(),
    {
        self.file_type().is_dir()
    }

    /// Returns true if this metadata is for a regular file.
    pub fn is_file(&self) -> (is: bool)
        ensures
            is == self.spec_file_type().is_file(),
    {
        self.file_type().is_file()
    }

    /// Returns true if this metadata is for a symbolic link.
    pub fn is_symlink(&self) -> (is: bool)
        ensures
            is == self.spec_file_type().is_symlink(),
    {
        self.file_type().is_symlink()
    }

    /// Returns the size of the file, in bytes, this metadata is for.
    pub fn len(&self) -> (len: u64)
        ensures
            len == self.size,
    {
        self.size
    }

    /// Returns the last modification time listed in this metadata.
    pub fn modified(&self) -> (time: Timestamp)
        ensures
            time == self.modified,
    {
        self.modified
    }

    /// Returns the last access time of this metadata.
    pub fn accessed(&self) -> (time: Timestamp)
        ensures
            time == self.accessed,
    {
        self.accessed
    }

    /// Returns the creation time listed in this metadata.
    pub fn created(&self) -> (time: Timestamp)
        ensures
            time == self.created,
    {
        self.created
    }
}

/// Options begin without any access, and with permissions to read and write for everyone.
pub proof fn law_blank_options(options: OpenOptions, valid: bool)
    requires
        call_ensures(OpenOptions::new, (), options),
        call_ensures(OpenOptions::is_valid, (&options,), valid),
    ensures
        !options@.read,
        !options@.write,
        !options@.append,
        !options@.truncate,
        !options@.create,
        !options@.create_new,
        options@.mode == 0o666,
        !valid,
{
}

/// Setting access sets that access and no other option, for good.
pub proof fn law_access_options(
    reading: &mut OpenOptions,
    writing: &mut OpenOptions,
    appending: &mut OpenOptions,
    read: &mut OpenOptions,
    written: &mut OpenOptions,
    appended: &mut OpenOptions,
    set: bool,
)
    requires
        call_ensures(OpenOptions::read, (reading, set), read),
        call_ensures(OpenOptions::write, (writing, set), written),
        call_ensures(OpenOptions::append, (appending, set), appended),
    ensures
        *final(reading) == *final(read),
        old(read)@.read == set,
        old(read)@.write == old(reading)@.write,
        old(read)@.append == old(reading)@.append,
        old(read)@.truncate == old(reading)@.truncate,
        old(read)@.create == old(reading)@.create,
        old(read)@.create_new == old(reading)@.create_new,
        old(read)@.mode == old(reading)@.mode,
        *final(writing) == *final(written),
        old(written)@.read == old(writing)@.read,
        old(written)@.write == set,
        old(written)@.append == old(writing)@.append,
        old(written)@.truncate == old(writing)@.truncate,
        old(written)@.create == old(writing)@.create,
        old(written)@.create_new == old(writing)@.create_new,
        old(written)@.mode == old(writing)@.mode,
        *final(appending) == *final(appended),
        old(appended)@.read == old(appending)@.read,
        old(appended)@.write == old(appending)@.write,
        old(appended)@.append == set,
        old(appended)@.truncate == old(appending)@.truncate,
        old(appended)@.create == old(appending)@.create,
        old(appended)@.create_new == old(appending)@.create_new,
        old(appended)@.mode == old(appending)@.mode,
{
}

/// Setting how a file comes to be sets that and no other option, for good.
pub proof fn law_creation_options(
    truncating: &mut OpenOptions,
    creating: &mut OpenOptions,
    renewing: &mut OpenOptions,
    truncated: &mut OpenOptions,
    created: &mut OpenOptions,
    renewed: &mut OpenOptions,
    set: bool,
)
    requires
        call_ensures(OpenOptions::truncate, (truncating, set), truncated),
        call_ensures(OpenOptions::create, (creating, set), created),
        call_ensures(OpenOptions::create_new, (renewing, set), renewed),
    ensures
        *final(truncating) == *final(truncated),
        old(truncated)@.read == old(truncating)@.read,
        old(truncated)@.write == old(truncating)@.write,
        old(truncated)@.append == old(truncating)@.append,
        old(truncated)@.truncate == set,
        old(truncated)@.create == old(truncating)@.create,
        old(truncated)@.create_new == old(truncating)@.create_new,
        old(truncated)@.mode == old(truncating)@.mode,
        *final(creating) == *final(created),
        old(created)@.read == old(creating)@.read,
        old(created)@.write == old(creating)@.write,
        old(created)@.append == old(creating)@.append,
        old(created)@.truncate == old(creating)@.truncate,
        old(created)@.create == set,
        old(created)@.create_new == old(creating)@.create_new,
        old(created)@.mode == old(creating)@.mode,
        *final(renewing) == *final(renewed),
        old(renewed)@.read == old(renewing)@.read,
        old(renewed)@.write == old(renewing)@.write,
        old(renewed)@.append == old(renewing)@.append,
        old(renewed)@.truncate == old(renewing)@.truncate,
        old(renewed)@.create == old(renewing)@.create,
        old(renewed)@.create_new == set,
        old(renewed)@.mode == old(renewing)@.mode,
{
}

/// Options that only ask for access have the flag of that access alone.
pub proof fn law_access_flags(options: &OpenOptions, system: &OpenFlags, flags: i32)
    requires
        call_ensures(OpenOptions::flags, (options, system), flags),
        !options@.truncate,
        !options@.create,
        !options@.create_new,
    ensures
        options@.read && !options@.write && !options@.append ==> flags == system.rdonly,
        !options@.read && options@.write && !options@.append ==> flags == system.wronly,
        options@.read && options@.write && !options@.append ==> flags == system.rdwr,
        !options@.read && options@.append ==> flags == system.wronly | system.append,
        options@.read && options@.append ==> flags == system.rdwr | system.append,
        !options@.read && !options@.write && !options@.append ==> flags == 0,
{
    let access = options@.access(*system);
    assert(access | 0 | 0 | 0 == access) by (bit_vector);
}

/// Every other option adds its own flags to those of the same options without it. One that creates a
/// new file creates a file.
pub proof fn law_creation_flags(
    options: &OpenOptions,
    without: &OpenOptions,
    system: &OpenFlags,
    flags: i32,
    fewer: i32,
)
    requires
        call_ensures(OpenOptions::flags, (options, system), flags),
        call_ensures(OpenOptions::flags, (without, system), fewer),
        options@.read == without@.read,
        options@.write == without@.write,
        options@.append == without@.append,
    ensures
        options@.truncate && !without@.truncate && options@.create == without@.create
            && options@.create_new == without@.create_new ==> flags == fewer | system.trunc,
        options@.truncate == without@.truncate && options@.create && !without@.create
            && options@.create_new == without@.create_new ==> flags == fewer | system.creat,
        options@.truncate == without@.truncate && options@.create == without@.create
            && options@.create_new && !without@.create_new ==> flags == fewer | system.creat
            | system.excl,
{
    let OpenFlags { rdonly: _, wronly: _, rdwr: _, creat, excl, trunc, append: _ } = *system;
    let access = options@.access(*system);
    let a = if options@.truncate {
        trunc
    } else {
        0
    };
    let b = if options@.create || options@.create_new {
        creat
    } else {
        0
    };
    let c = if options@.create_new {
        excl
    } else {
        0
    };
    assert(access | trunc | b | c == access | 0 | b | c | trunc) by (bit_vector);
    assert(access | a | creat | 0 == access | a | 0 | 0 | creat) by (bit_vector);
    assert(access | a | creat | excl == access | a | creat | excl | creat) by (bit_vector);
    assert(access | a | creat | excl == access | a | 0 | 0 | creat | excl) by (bit_vector);
    assert(access | a | creat | excl == access | a | creat | 0 | creat | excl) by (bit_vector);
}

/// Options go together if and only if they ask for some access, for write access where a file is
/// truncated or created, and do not truncate an existing file to append to it.
pub proof fn law_valid_options(options: &OpenOptions, valid: bool)
    requires
        call_ensures(OpenOptions::is_valid, (options,), valid),
    ensures
        !options@.read && !options@.write && !options@.append ==> !valid,
        (options@.truncate || options@.create || options@.create_new) && !options@.write
            && !options@.append ==> !valid,
        options@.append && options@.truncate && !options@.create_new ==> !valid,
        options@.read && !options@.truncate && !options@.create && !options@.create_new ==> valid,
        options@.write && !options@.append ==> valid,
        options@.append && !options@.truncate ==> valid,
        options@.append && options@.create_new ==> valid,
{
}

/// A file can be opened if and only if the options go together and the path holds no zero byte: by
/// the path and a zero byte, with the flags and the mode of the options. The path is looked at first.
pub proof fn law_open(
    options: &OpenOptions,
    path: &Vec<u8>,
    system: &OpenFlags,
    opening: Result<Opening, OpenError>,
    valid: bool,
    flags: i32,
)
    requires
        call_ensures(OpenOptions::open, (options, path, system), opening),
        call_ensures(OpenOptions::is_valid, (options,), valid),
        call_ensures(OpenOptions::flags, (options, system), flags),
    ensures
        opening is Ok <==> valid && forall|i: int| 0 <= i < path@.len() ==> path@[i] != 0,
        opening is Ok ==> {
            &&& opening->Ok_0.path@.len() == path@.len() + 1
            &&& opening->Ok_0.path@.last() == 0
            &&& forall|i: int| 0 <= i < path@.len() ==> opening->Ok_0.path@[i] == path@[i]
            &&& opening->Ok_0.flags == flags
            &&& opening->Ok_0.mode == options@.mode
        },
        (exists|i: int| 0 <= i < path@.len() && path@[i] == 0) ==> opening
            == Err::<Opening, OpenError>(OpenError::InvalidPath),
        !valid && (forall|i: int| 0 <= i < path@.len() ==> path@[i] != 0) ==> opening
            == Err::<Opening, OpenError>(OpenError::InvalidOptions),
{
    if forall|i: int| 0 <= i < path@.len() ==> path@[i] != 0 {
        assert(!path@.contains(0));
    } else {
        let i = choose|i: int| 0 <= i < path@.len() && path@[i] == 0;
        assert(path@.contains(path@[i]));
    }
}

/// Files are opened to read only, and created to write only: an existing one is truncated, unless
/// the file is to be a new one.
pub proof fn law_file_options(
    opening: OpenOptions,
    creating: OpenOptions,
    renewing: OpenOptions,
    system: &OpenFlags,
    opened: i32,
    created: i32,
    renewed: i32,
    valid: (bool, bool, bool),
)
    requires
        call_ensures(File::open, (), opening),
        call_ensures(File::create, (), creating),
        call_ensures(File::create_new, (), renewing),
        call_ensures(OpenOptions::flags, (&opening, system), opened),
        call_ensures(OpenOptions::flags, (&creating, system), created),
        call_ensures(OpenOptions::flags, (&renewing, system), renewed),
        call_ensures(OpenOptions::is_valid, (&opening,), valid.0),
        call_ensures(OpenOptions::is_valid, (&creating,), valid.1),
        call_ensures(OpenOptions::is_valid, (&renewing,), valid.2),
    ensures
        opened == system.rdonly,
        created == system.wronly | system.creat | system.trunc,
        renewed == system.wronly | system.creat | system.excl,
        opening@.mode == 0o666,
        creating@.mode == 0o666,
        renewing@.mode == 0o666,
        valid == (true, true, true),
{
    law_flags(*system);
}

/// A file reads and writes by its descriptor, from and to the buffer, where it is at: the calls of
/// blocking threads have no offset, and the kernel's queue is given the one that stands for none.
/// Both do as much of the buffer as one operation can.
pub proof fn law_read_and_write<S>(
    fd: i32,
    file: File,
    buf: usize,
    len: usize,
    reading: &Request<S>,
    writing: &Request<S>,
    read: (Entry, Call),
    written: (Entry, Call),
)
    requires
        call_ensures(File::new, (fd,), file),
        call_ensures(File::read, (&file, buf, len), reading.operation),
        call_ensures(File::write, (&file, buf, len), writing.operation),
        call_ensures(Request::<S>::uring_entry, (reading,), read.0),
        call_ensures(pool::process, (&reading.operation,), read.1),
        call_ensures(Request::<S>::uring_entry, (writing,), written.0),
        call_ensures(pool::process, (&writing.operation,), written.1),
    ensures
        read.0.code is Read,
        read.0.code->Read_fd == fd,
        read.0.code->Read_buf == buf,
        read.0.code->Read_offset == u64::MAX,
        read.0.code->Read_len <= len,
        len <= i32::MAX ==> read.0.code->Read_len == len,
        len > i32::MAX ==> read.0.code->Read_len == i32::MAX,
        read.1 is Read,
        read.1->Read_fd == fd,
        read.1->Read_buf == buf,
        read.1->Read_len == read.0.code->Read_len,
        written.0.code is Write,
        written.0.code->Write_fd == fd,
        written.0.code->Write_buf == buf,
        written.0.code->Write_offset == u64::MAX,
        written.0.code->Write_len == read.0.code->Read_len,
        written.1 is Write,
        written.1->Write_fd == fd,
        written.1->Write_buf == buf,
        written.1->Write_len == written.0.code->Write_len,
{
}

/// A file syncs, truncates and is looked at by its descriptor.
pub proof fn law_file_operations(
    fd: i32,
    file: File,
    again: i32,
    path: usize,
    memory: usize,
    size: u64,
    all: Operation,
    data: Operation,
    truncation: Operation,
    query: Operation,
)
    requires
        call_ensures(File::new, (fd,), file),
        call_ensures(File::fd, (&file,), again),
        call_ensures(File::sync_all, (&file,), all),
        call_ensures(File::sync_data, (&file,), data),
        call_ensures(File::set_len, (&file, size), truncation),
        call_ensures(File::metadata, (&file, path, memory), query),
    ensures
        again == fd,
        all is Fsync && all->Fsync_fd == fd && !all->only_data,
        data is Fsync && data->Fsync_fd == fd && data->only_data,
        truncation is Truncate && truncation->Truncate_fd == fd && truncation->size == size,
        query is Stat && query->Stat_fd == fd && query->Stat_path == path && query->metadata
            == memory,
{
}

/// Metadata are of a directory, a regular file or a symbolic link as their file type is, which is
/// told by the bits of the mode under the mask, whatever the others are.
pub proof fn law_file_type(
    metadata: &Metadata,
    file_type: FileType,
    types: (bool, bool, bool),
    directly: (bool, bool, bool),
)
    requires
        call_ensures(Metadata::file_type, (metadata,), file_type),
        call_ensures(FileType::is_dir, (&file_type,), types.0),
        call_ensures(FileType::is_file, (&file_type,), types.1),
        call_ensures(FileType::is_symlink, (&file_type,), types.2),
        call_ensures(Metadata::is_dir, (metadata,), directly.0),
        call_ensures(Metadata::is_file, (metadata,), directly.1),
        call_ensures(Metadata::is_symlink, (metadata,), directly.2),
    ensures
        types == directly,
        types.0 <==> metadata.mode & metadata.kinds.mask == metadata.kinds.directory,
        types.1 <==> metadata.mode & metadata.kinds.mask == metadata.kinds.regular,
        types.2 <==> metadata.mode & metadata.kinds.mask == metadata.kinds.symlink,
{
}

/// Metadata give the size and each time that they hold.
pub proof fn law_metadata(
    metadata: &Metadata,
    len: u64,
    modified: Timestamp,
    accessed: Timestamp,
    created: Timestamp,
)
    requires
        call_ensures(Metadata::len, (metadata,), len),
        call_ensures(Metadata::modified, (metadata,), modified),
        call_ensures(Metadata::accessed, (metadata,), accessed),
        call_ensures(Metadata::created, (metadata,), created),
    ensures
        *metadata == (Metadata {
            mode: metadata.mode,
            kinds: metadata.kinds,
            size: len,
            accessed,
            modified,
            created,
        }),
{
}

} // verus!
