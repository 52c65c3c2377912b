use vstd::prelude::*;

verus! {

/// How many 8-bit registers every device holds.
pub const NUMBER_OF_REGISTERS: usize = 3;

/// The bus a device sits on; its position in a device table is its index.
#[derive(Clone, Copy, Debug, PartialEq, Eq, Structural)]
pub enum DeviceKind {
    I2c,
    Spi,
}

/// Abstract state of a device: its name, its register contents and the
/// number of writes it has served.
pub ghost struct DeviceView {
    pub name: Seq<char>,
    pub registers: Seq<u8>,
    pub usage_count: int,
}

/// A device with a name, a fixed bank of registers and a write counter.
#[derive(Debug)]
pub struct Device {
    name: String,
    registers: [u8; NUMBER_OF_REGISTERS],
    usage_count: i32,
}

/// The sixteen hexadecimal digits, upper case; the first ten are the
/// decimal digits.
pub open spec fn digit_chars() -> Seq<char> {
    seq!['0', '1', '2', '3', '4', '5', '6', '7', '8', '9', 'A', 'B', 'C', 'D', 'E', 'F']
}

/// A byte written as `0x` followed by two upper-case hexadecimal digits.
pub open spec fn hex_byte_text(b: u8) -> Seq<char> {
    seq!['0', 'x', digit_chars()[(b / 16) as int], digit_chars()[(b % 16) as int]]
}

/// The bytes written as hexadecimal and separated by `", "`.
pub open spec fn hex_list_text(bytes: Seq<u8>) -> Seq<char>
    decreases bytes.len(),
{
    if bytes.len() == 0 {
        Seq::empty()
    } else if bytes.len() == 1 {
        hex_byte_text(bytes[0])
    } else {
        hex_list_text(bytes.drop_last()) + seq![',', ' '] + hex_byte_text(bytes.last())
    }
}

/// A natural number in decimal, without leading zeros.
pub open spec fn decimal_text(n: nat) -> Seq<char>
    decreases n,
{
    if n < 10 {
        seq![digit_chars()[n as int]]
    } else {
        decimal_text(n / 10).push(digit_chars()[(n % 10) as int])
    }
}

impl DeviceView {
    /// What every device satisfies: a full register bank and a write
    /// counter between zero and `i32::MAX`.
    pub open spec fn is_valid(self) -> bool {
        &&& self.registers.len() == NUMBER_OF_REGISTERS
        &&& 0 <= self.usage_count <= i32::MAX
    }

    /// The device after `value` is written to register `index`.
    pub open spec fn written(self, index: int, value: u8) -> DeviceView {
        DeviceView {
            name: self.name,
            registers: self.registers.update(index, value),
            usage_count: self.usage_count + 1,
        }
    }

    /// The one-line description of a device:
    /// `device [<name>] [0x.., 0x.., 0x..] [<usage count>]`.
    pub open spec fn text(self) -> Seq<char> {
        seq!['d', 'e', 'v', 'i', 'c', 'e', ' ', '['] + self.name + seq![']', ' ', '[']
            + hex_list_text(self.registers) + seq![']', ' ', '['] + decimal_text(
            self.usage_count as nat,
        ) + seq![']']
    }
}

/// `String::push` appends one character.
pub assume_specification[ String::push ](s: &mut String, ch: char)
    ensures
        final(s)@ == old(s)@.push(ch),
;

/// The digit character for `d`, which is below sixteen.
fn digit_char(d: u8) -> (c: char)
    requires
        d < 16,
    ensures
        c == digit_chars()[d as int],
{
    match d {
        0 => '0',
        1 => '1',
        2 => '2',
        3 => '3',
        4 => '4',
        5 => '5',
        6 => '6',
        7 => '7',
        8 => '8',
        9 => '9',
        10 => 'A',
        11 => 'B',
        12 => 'C',
        13 => 'D',
        14 => 'E',
        _ => 'F',
    }
}

/// Appends `b` written as `0xHH`.
fn push_hex_byte(text: &mut String, b: u8)
    ensures
        final(text)@ == old(text)@ + hex_byte_text(b),
{
    text.push('0');
    text.push('x');
    text.push(digit_char(b / 16));
    text.push(digit_char(b % 16));
}

/// Appends `n` written in decimal.
fn push_decimal(text: &mut String, n: u32)
    ensures
        final(text)@ == old(text)@ + decimal_text(n as nat),
    decreases n,
{
    if n >= 10 {
        push_decimal(text, n / 10);
    }
    text.push(digit_char((n % 10) as u8));
}

impl View for Device {
    type V = DeviceView;

    closed spec fn view(&self) -> DeviceView {
        DeviceView {
            name: self.name@,
            registers: self.registers@,
            usage_count: self.usage_count as int,
        }
    }
}

impl Device {
    /// Register that other devices read their data from.
    pub const REG_TO_READ: usize = 1;

    /// Register that receives data written by other devices.
    pub const REG_TO_WRITE: usize = 2;

    /// Every device's view is valid: a full register bank and a write
    /// counter between zero and `i32::MAX`.
    #[verifier::type_invariant]
    pub(crate) open spec fn inv(self) -> bool {
        self@.is_valid()
    }

    pub fn new(name: &str, registers: [u8; NUMBER_OF_REGISTERS]) -> (device: Self)
        ensures
            device@.name == name@,
            device@.registers == registers@,
            device@.usage_count == 0,
            device@.is_valid(),
    {
        Device { name: name.to_string(), registers, usage_count: 0 }
    }

    /// Value of register `index`.
    pub fn read_register(&self, index: usize) -> (value: u8)
        requires
            index < NUMBER_OF_REGISTERS,
        ensures
            value == self@.registers[index as int],
            self@.is_valid(),
    {
        proof {
            use_type_invariant(self);
        }
        self.registers[index]
    }

    /// Number of writes this device has served.
    pub fn usage_count(&self) -> (count: i32)
        ensures
            count == self@.usage_count,
            self@.is_valid(),
    {
        proof {
            use_type_invariant(self);
        }
        self.usage_count
    }

    /// Stores `value` in register `index` and counts one more use.
    pub fn write_register(&mut self, index: usize, value: u8)
        requires
            index < NUMBER_OF_REGISTERS,
            old(self)@.usage_count < i32::MAX,
        ensures
            final(self)@ == old(self)@.written(index as int, value),
            final(self)@.is_valid(),
    {
        proof {
            use_type_invariant(&*self);
        }
        self.registers[index] = value;
        self.usage_count = self.usage_count + 1;
    }

    /// The one-line description of the device, as `DeviceView::text`
    /// gives it, e.g. `device [SPI] [0x00, 0xAA, 0xBB] [0]`.
    pub fn to_string(&self) -> (text: String)
        ensures
            text@ == self@.text(),
            self@.is_valid(),
    {
        proof {
            use_type_invariant(self);
            reveal_strlit("device [");
            reveal_strlit("] [");
        }
        let mut text = String::new();
        text.append("device [");
        text.append(self.name.as_str());
        text.append("] [");
        let ghost start = text@;
        let mut i: usize = 0;
        while i < NUMBER_OF_REGISTERS
            invariant
                i <= NUMBER_OF_REGISTERS,
                text@ == start + hex_list_text(self.registers@.take(i as int)),
            decreases NUMBER_OF_REGISTERS - i,
        {
            if i > 0 {
                text.push(',');
                text.push(' ');
            }
            push_hex_byte(&mut text, self.registers[i]);
            assert(self.registers@.take(i + 1).drop_last() == self.registers@.take(i as int));
            i = i + 1;
        }
        assert(self.registers@.take(NUMBER_OF_REGISTERS as int) == self.registers@);
        text.append("] [");
        push_decimal(&mut text, self.usage_count as u32);
        text.push(']');
        text
    }
}

/// A write is seen by the next read of the same register and by no other
/// register; it keeps the name and counts exactly one use.
pub proof fn lemma_read_after_write(device: DeviceView, index: int, other: int, value: u8)
    requires
        device.is_valid(),
        0 <= index < NUMBER_OF_REGISTERS,
        0 <= other < NUMBER_OF_REGISTERS,
        other != index,
        device.usage_count < i32::MAX,
    ensures
        device.written(index, value).registers[index] == value,
        device.written(index, value).registers[other] == device.registers[other],
        device.written(index, value).name == device.name,
        device.written(index, value).usage_count == device.usage_count + 1,
        device.written(index, value).is_valid(),
{
}

/// Of two writes to the same register only the last one stays; the counter
/// still counts both.
pub proof fn lemma_last_write_wins(device: DeviceView, index: int, first: u8, second: u8)
    requires
        device.is_valid(),
        0 <= index < NUMBER_OF_REGISTERS,
    ensures
        device.written(index, first).written(index, second).registers == device.written(
            index,
            second,
        ).registers,
        device.written(index, first).written(index, second).usage_count == device.usage_count
            + 2,
{
    assert(device.written(index, first).written(index, second).registers =~= device.written(
        index,
        second,
    ).registers);
}

/// The description starts with `device [`, then the name, and ends with the
/// usage count in decimal between square brackets.
pub proof fn lemma_text_shows_name_and_count(device: DeviceView)
    requires
        device.is_valid(),
    ensures
        device.text().subrange(0, 8) == seq!['d', 'e', 'v', 'i', 'c', 'e', ' ', '['],
        device.text().subrange(8, 8 + device.name.len() as int) == device.name,
        device.text().subrange(
            device.text().len() - decimal_text(device.usage_count as nat).len() - 2,
            device.text().len() as int,
        ) == seq!['['] + decimal_text(device.usage_count as nat) + seq![']'],
{
    let count = decimal_text(device.usage_count as nat);
    let head = seq!['d', 'e', 'v', 'i', 'c', 'e', ' ', '['] + device.name + seq![']', ' ', '[']
        + hex_list_text(device.registers) + seq![']', ' '];
    assert(device.text() =~= head + (seq!['['] + count + seq![']']));
    assert(device.text().subrange(0, 8) =~= seq!['d', 'e', 'v', 'i', 'c', 'e', ' ', '[']);
    assert(device.text().subrange(8, 8 + device.name.len() as int) =~= device.name);
    assert(device.text().subrange(
        device.text().len() - count.len() - 2,
        device.text().len() as int,
    ) =~= seq!['['] + count + seq![']']);
}

/// An upper-case hexadecimal digit character: `0`-`9` or `A`-`F`.
pub open spec fn is_upper_hex_digit(c: char) -> bool {
    ('0' as int <= c as int <= '9' as int) || ('A' as int <= c as int <= 'F' as int)
}

/// The value of an upper-case hexadecimal digit character, from its
/// character code.
pub open spec fn hex_digit_value(c: char) -> int {
    if c as int <= '9' as int {
        c as int - '0' as int
    } else {
        c as int - 'A' as int + 10
    }
}

/// A decimal digit character: `0`-`9`.
pub open spec fn is_decimal_digit(c: char) -> bool {
    '0' as int <= c as int <= '9' as int
}

/// The number that a string of decimal digit characters denotes, read from
/// the character codes, most significant digit first.
pub open spec fn decimal_value(digits: Seq<char>) -> int
    decreases digits.len(),
{
    if digits.len() == 0 {
        0
    } else {
        decimal_value(digits.drop_last()) * 10 + (digits.last() as int - '0' as int)
    }
}

/// Digit `d` is the upper-case hexadecimal digit whose value is `d`; so the
/// sixteen digits are pairwise distinct, and the first ten are the decimal
/// digits.
pub proof fn lemma_digit_chars(d: int)
    requires
        0 <= d < 16,
    ensures
        is_upper_hex_digit(digit_chars()[d]),
        hex_digit_value(digit_chars()[d]) == d,
        d < 10 ==> digit_chars()[d] as int == '0' as int + d,
        d >= 10 ==> digit_chars()[d] as int == 'A' as int + (d - 10),
        d < 10 <==> is_decimal_digit(digit_chars()[d]),
{
    assert(digit_chars()[0] == '0');
    assert(digit_chars()[1] == '1');
    assert(digit_chars()[2] == '2');
    assert(digit_chars()[3] == '3');
    assert(digit_chars()[4] == '4');
    assert(digit_chars()[5] == '5');
    assert(digit_chars()[6] == '6');
    assert(digit_chars()[7] == '7');
    assert(digit_chars()[8] == '8');
    assert(digit_chars()[9] == '9');
    assert(digit_chars()[10] == 'A');
    assert(digit_chars()[11] == 'B');
    assert(digit_chars()[12] == 'C');
    assert(digit_chars()[13] == 'D');
    assert(digit_chars()[14] == 'E');
    assert(digit_chars()[15] == 'F');
}

/// A byte is shown as `0x` and two upper-case hexadecimal digits that read
/// back as the byte (high digit first): the `{:02X}` rendering.
pub proof fn lemma_hex_byte_reads_back(b: u8)
    ensures
        hex_byte_text(b).len() == 4,
        hex_byte_text(b)[0] == '0',
        hex_byte_text(b)[1] == 'x',
        is_upper_hex_digit(hex_byte_text(b)[2]),
        is_upper_hex_digit(hex_byte_text(b)[3]),
        hex_digit_value(hex_byte_text(b)[2]) * 16 + hex_digit_value(hex_byte_text(b)[3]) == b,
{
    lemma_digit_chars((b / 16) as int);
    lemma_digit_chars((b % 16) as int);
}

/// Different bytes are shown differently.
pub proof fn lemma_hex_byte_injective(a: u8, b: u8)
    requires
        hex_byte_text(a) == hex_byte_text(b),
    ensures
        a == b,
{
    lemma_hex_byte_reads_back(a);
    lemma_hex_byte_reads_back(b);
}

/// The bytes are listed in order, every one of them as its hexadecimal
/// text, with `", "` between neighbours: item `i` takes the characters
/// `6 * i .. 6 * i + 4`.
pub proof fn lemma_hex_list_layout(bytes: Seq<u8>)
    ensures
        bytes.len() == 0 ==> hex_list_text(bytes).len() == 0,
        bytes.len() >= 1 ==> hex_list_text(bytes).len() == 6 * bytes.len() - 2,
        forall|i: int|
            0 <= i < bytes.len() ==> {
                &&& hex_list_text(bytes).subrange(6 * i, 6 * i + 4) == hex_byte_text(
                    #[trigger] bytes[i],
                )
                &&& i < bytes.len() - 1 ==> hex_list_text(bytes).subrange(6 * i + 4, 6 * i + 6)
                    == seq![',', ' ']
            },
    decreases bytes.len(),
{
    if bytes.len() >= 2 {
        let prefix = bytes.drop_last();
        lemma_hex_list_layout(prefix);
        let before = hex_list_text(prefix);
        let text = hex_list_text(bytes);
        let n = bytes.len() as int;
        assert(text == before + seq![',', ' '] + hex_byte_text(bytes.last()));
        assert forall|i: int| 0 <= i < bytes.len() implies {
            &&& text.subrange(6 * i, 6 * i + 4) == hex_byte_text(#[trigger] bytes[i])
            &&& i < bytes.len() - 1 ==> text.subrange(6 * i + 4, 6 * i + 6) == seq![',', ' ']
        } by {
            if i < n - 1 {
                assert(prefix[i] == bytes[i]);
                assert(text.subrange(6 * i, 6 * i + 4) =~= before.subrange(6 * i, 6 * i + 4));
                if i < n - 2 {
                    assert(text.subrange(6 * i + 4, 6 * i + 6) =~= before.subrange(
                        6 * i + 4,
                        6 * i + 6,
                    ));
                } else {
                    assert(text.subrange(6 * i + 4, 6 * i + 6) =~= seq![',', ' ']);
                }
            } else {
                assert(text.subrange(6 * i, 6 * i + 4) =~= hex_byte_text(bytes.last()));
            }
        }
    } else if bytes.len() == 1 {
        assert(hex_list_text(bytes).subrange(0, 4) =~= hex_byte_text(bytes[0]));
    }
}

/// `decimal_text(n)` is the decimal numeral of `n`: at least one digit,
/// only decimal digits, no leading zero, and it reads back as `n`.
pub proof fn lemma_decimal_reads_back(n: nat)
    ensures
        decimal_text(n).len() >= 1,
        forall|i: int| 0 <= i < decimal_text(n).len() ==> is_decimal_digit(#[trigger] decimal_text(n)[i]),
        decimal_value(decimal_text(n)) == n,
        n >= 10 ==> decimal_text(n)[0] != '0',
        n < 10 ==> decimal_text(n).len() == 1,
    decreases n,
{
    if n < 10 {
        lemma_digit_chars(n as int);
        let t = decimal_text(n);
        assert(t.drop_last() =~= Seq::<char>::empty());
        assert(decimal_value(t.drop_last()) == 0);
        assert(decimal_value(t) == n);
    } else {
        lemma_decimal_reads_back(n / 10);
        lemma_digit_chars((n % 10) as int);
        let before = decimal_text(n / 10);
        let t = decimal_text(n);
        assert(t == before.push(digit_chars()[(n % 10) as int]));
        assert(t.drop_last() =~= before);
        assert(t[0] == before[0]);
        assert(decimal_value(t) == decimal_value(before) * 10 + (n % 10) as int);
        if n / 10 < 10 {
            lemma_digit_chars((n / 10) as int);
        }
        assert forall|i: int| 0 <= i < t.len() implies is_decimal_digit(#[trigger] t[i]) by {
            if i < t.len() - 1 {
                assert(t[i] == before[i]);
            }
        }
    }
}

/// `text` shows the byte `b` at character `at`: `0x` and two upper-case
/// hexadecimal digits whose value, high digit first, is `b`.
pub open spec fn shows_hex_byte_at(text: Seq<char>, at: int, b: u8) -> bool {
    &&& text[at] == '0'
    &&& text[at + 1] == 'x'
    &&& is_upper_hex_digit(text[at + 2])
    &&& is_upper_hex_digit(text[at + 3])
    &&& hex_digit_value(text[at + 2]) * 16 + hex_digit_value(text[at + 3]) == b
}

/// Every register and the usage count can be read back from the
/// description: register `i` is shown as `0x` and two upper-case
/// hexadecimal digits at characters `11 + name length + 6 * i` onwards,
/// and the count is the decimal numeral between the last `[` (character
/// `30 + name length`) and the closing `]`.
pub proof fn lemma_text_reads_back(device: DeviceView)
    requires
        device.is_valid(),
    ensures
        forall|i: int|
            0 <= i < NUMBER_OF_REGISTERS ==> shows_hex_byte_at(
                device.text(),
                11 + device.name.len() + 6 * i,
                #[trigger] device.registers[i],
            ),
        device.text().len() > 31 + device.name.len(),
        device.text()[29 + device.name.len() as int] == '[',
        device.text().last() == ']',
        forall|i: int|
            30 + device.name.len() <= i < device.text().len() - 1 ==> is_decimal_digit(
                #[trigger] device.text()[i],
            ),
        decimal_value(device.text().subrange(30 + device.name.len() as int, device.text().len() - 1))
            == device.usage_count,
{
    let n = device.name.len() as int;
    let regs = device.registers;
    let list = hex_list_text(regs);
    let count = decimal_text(device.usage_count as nat);
    let head = seq!['d', 'e', 'v', 'i', 'c', 'e', ' ', '['] + device.name + seq![']', ' ', '['];
    let text = device.text();
    lemma_hex_list_layout(regs);
    lemma_decimal_reads_back(device.usage_count as nat);
    assert(text =~= head + list + seq![']', ' ', '['] + count + seq![']']);
    assert(head.len() == 11 + n);
    assert(list.len() == 16);
    assert forall|i: int| 0 <= i < NUMBER_OF_REGISTERS implies shows_hex_byte_at(
        text,
        11 + n + 6 * i,
        #[trigger] regs[i],
    ) by {
        let at = 11 + n + 6 * i;
        lemma_hex_byte_reads_back(regs[i]);
        let shown = list.subrange(6 * i, 6 * i + 4);
        assert(shown == hex_byte_text(regs[i]));
        assert(text[at] == shown[0]);
        assert(text[at + 1] == shown[1]);
        assert(text[at + 2] == shown[2]);
        assert(text[at + 3] == shown[3]);
    }
    assert(text.subrange(30 + n, text.len() - 1) =~= count);
    assert forall|i: int| 30 + n <= i < text.len() - 1 implies is_decimal_digit(
        #[trigger] text[i],
    ) by {
        assert(text[i] == count[i - (30 + n)]);
    }
}

} // verus!
