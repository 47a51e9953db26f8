use vstd::prelude::*;

verus! {

/// Number of addressable bytes in the machine's RAM.
pub const MEM_SIZE: usize = 4096;

/// First address at which program bytes are placed.
pub const PROGRAM_START: usize = 0x200;

/// Number of bytes occupied by the built-in glyph table.
pub const FONT_BYTES: usize = 80;

/// The byte a read returns: the stored byte, or 0 for any address
/// outside the RAM.
pub open spec fn spec_read(mem: Seq<u8>, addr: int) -> u8 {
    if 0 <= addr < MEM_SIZE {
        mem[addr]
    } else {
        0u8
    }
}

/// The RAM after a write: writes to addresses outside the RAM are
/// discarded.
pub open spec fn spec_write(mem: Seq<u8>, addr: int, value: u8) -> Seq<u8> {
    if 0 <= addr < MEM_SIZE {
        mem.update(addr, value)
    } else {
        mem
    }
}

/// An all-zero RAM.
pub open spec fn spec_blank_mem() -> Seq<u8> {
    Seq::new(MEM_SIZE as nat, |i: int| 0u8)
}

/// The built-in glyph table: 16 glyphs ("0" through "F"), 5 bytes each,
/// glyph k occupying offsets 5*k .. 5*k+4.
pub open spec fn spec_fontset() -> Seq<u8> {
    seq![
        0xF0u8, 0x90, 0x90, 0x90, 0xF0, // 0
        0x20, 0x60, 0x20, 0x20, 0x70, // 1
        0xF0, 0x10, 0xF0, 0x80, 0xF0, // 2
        0xF0, 0x10, 0xF0, 0x10, 0xF0, // 3
        0x90, 0x90, 0xF0, 0x10, 0x10, // 4
        0xF0, 0x80, 0xF0, 0x10, 0xF0, // 5
        0xF0, 0x80, 0xF0, 0x90, 0xF0, // 6
        0xF0, 0x10, 0x20, 0x40, 0x40, // 7
        0xF0, 0x90, 0xF0, 0x90, 0xF0, // 8
        0xF0, 0x90, 0xF0, 0x10, 0xF0, // 9
        0xF0, 0x90, 0xF0, 0x90, 0x90, // A
        0xE0, 0x90, 0xE0, 0x90, 0xE0, // B
        0xF0, 0x80, 0x80, 0x80, 0xF0, // C
        0xE0, 0x90, 0x90, 0x90, 0xE0, // D
        0xF0, 0x80, 0xF0, 0x80, 0xF0, // E
        0xF0, 0x80, 0xF0, 0x80, 0x80, // F
    ]
}

/// The RAM after the glyph table is written over its first 80 bytes.
pub open spec fn spec_with_font(mem: Seq<u8>) -> Seq<u8> {
    Seq::new(mem.len(), |i: int| if 0 <= i < FONT_BYTES {
        spec_fontset()[i]
    } else {
        mem[i]
    })
}

/// The RAM after a program is copied in starting at `PROGRAM_START`;
/// bytes that would land at or beyond the end of the RAM are dropped.
pub open spec fn spec_with_program(mem: Seq<u8>, prog: Seq<u8>) -> Seq<u8> {
    Seq::new(mem.len(), |i: int| if PROGRAM_START <= i < PROGRAM_START + prog.len() {
        prog[i - PROGRAM_START]
    } else {
        mem[i]
    })
}

/// Flat byte store of `MEM_SIZE` cells with lenient bounds: reads outside
/// the RAM yield 0, writes outside it are discarded.
pub struct Memory {
    pub ram: Vec<u8>,
}

impl View for Memory {
    type V = Seq<u8>;

    open spec fn view(&self) -> Seq<u8> {
        self.ram@
    }
}

impl Memory {
    pub open spec fn wf(&self) -> bool {
        self@.len() == MEM_SIZE
    }

    pub fn new() -> (m: Memory)
        ensures
            m.wf(),
            m@ == spec_blank_mem(),
    {
        let mut ram: Vec<u8> = Vec::new();
        while ram.len() < MEM_SIZE
            invariant
                ram@.len() <= MEM_SIZE,
                forall|i: int| 0 <= i < ram@.len() ==> ram@[i] == 0u8,
            decreases MEM_SIZE - ram@.len(),
        {
            ram.push(0);
        }
        let m = Memory { ram };
        proof {
            assert(m@ =~= spec_blank_mem());
        }
        m
    }

    pub fn read(&self, address: u16) -> (r: u8)
        requires
            self.wf(),
        ensures
            r == spec_read(self@, address as int),
    {
        if (address as usize) < MEM_SIZE {
            self.ram[address as usize]
        } else {
            0
        }
    }

    pub fn write(&mut self, address: u16, value: u8)
        requires
            old(self).wf(),
        ensures
            final(self).wf(),
            final(self)@ == spec_write(old(self)@, address as int, value),
    {
        if (address as usize) < MEM_SIZE {
            self.ram[address as usize] = value;
        }
    }

    pub fn load_program(&mut self, program: &[u8])
        requires
            old(self).wf(),
        ensures
            final(self).wf(),
            final(self)@ == spec_with_program(old(self)@, program@),
    {
        let mut i: usize = 0;
        while i < program.len()
            invariant
                old(self).wf(),
                self@.len() == MEM_SIZE,
                i <= program@.len(),
                forall|j: int| 0 <= j < MEM_SIZE && !(PROGRAM_START <= j < PROGRAM_START + i)
                    ==> self@[j] == old(self)@[j],
                forall|j: int| PROGRAM_START <= j < PROGRAM_START + i && j < MEM_SIZE
                    ==> self@[j] == program@[j - PROGRAM_START],
            decreases program@.len() - i,
        {
            if i < MEM_SIZE - PROGRAM_START {
                self.ram[PROGRAM_START + i] = program[i];
            }
            i = i + 1;
        }
        proof {
            assert(final(self)@ =~= spec_with_program(old(self)@, program@));
        }
    }

    pub fn load_fontset(&mut self)
        requires
            old(self).wf(),
        ensures
            final(self).wf(),
            final(self)@ == spec_with_font(old(self)@),
    {
        let font: Vec<u8> = vec![
            0xF0, 0x90, 0x90, 0x90, 0xF0, // 0
            0x20, 0x60, 0x20, 0x20, 0x70, // 1
            0xF0, 0x10, 0xF0, 0x80, 0xF0, // 2
            0xF0, 0x10, 0xF0, 0x10, 0xF0, // 3
            0x90, 0x90, 0xF0, 0x10, 0x10, // 4
            0xF0, 0x80, 0xF0, 0x10, 0xF0, // 5
            0xF0, 0x80, 0xF0, 0x90, 0xF0, // 6
            0xF0, 0x10, 0x20, 0x40, 0x40, // 7
            0xF0, 0x90, 0xF0, 0x90, 0xF0, // 8
            0xF0, 0x90, 0xF0, 0x10, 0xF0, // 9
            0xF0, 0x90, 0xF0, 0x90, 0x90, // A
            0xE0, 0x90, 0xE0, 0x90, 0xE0, // B
            0xF0, 0x80, 0x80, 0x80, 0xF0, // C
            0xE0, 0x90, 0x90, 0x90, 0xE0, // D
            0xF0, 0x80, 0xF0, 0x80, 0xF0, // E
            0xF0, 0x80, 0xF0, 0x80, 0x80, // F
        ];
        proof {
            assert(font@ =~= spec_fontset());
        }
        let mut i: usize = 0;
        while i < FONT_BYTES
            invariant
                old(self).wf(),
                self@.len() == MEM_SIZE,
                i <= FONT_BYTES,
                font@ == spec_fontset(),
                forall|j: int| i <= j < MEM_SIZE ==> self@[j] == old(self)@[j],
                forall|j: int| 0 <= j < i ==> self@[j] == spec_fontset()[j],
            decreases FONT_BYTES - i,
        {
            self.ram[i] = font[i];
            i = i + 1;
        }
        proof {
            assert(final(self)@ =~= spec_with_font(old(self)@));
        }
    }

    pub fn clear(&mut self)
        requires
            old(self).wf(),
        ensures
            final(self).wf(),
            final(self)@ == spec_blank_mem(),
    {
        let mut i: usize = 0;
        while i < MEM_SIZE
            invariant
                old(self).wf(),
                self@.len() == MEM_SIZE,
                i <= MEM_SIZE,
                forall|j: int| 0 <= j < i ==> self@[j] == 0u8,
            decreases MEM_SIZE - i,
        {
            self.ram[i] = 0;
            i = i + 1;
        }
        proof {
            assert(final(self)@ =~= spec_blank_mem());
        }
    }
}

} // verus!
