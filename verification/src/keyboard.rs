use vstd::prelude::*;
use crate::input::{InputEvent, EV_KEY};
use crate::time::Time;

verus! {
pub const KEY_RESERVED: u16 = 0;
pub const KEY_ESC: u16 = 1;
pub const KEY_1: u16 = 2;
pub const KEY_2: u16 = 3;
pub const KEY_3: u16 = 4;
pub const KEY_4: u16 = 5;
pub const KEY_5: u16 = 6;
pub const KEY_6: u16 = 7;
pub const KEY_7: u16 = 8;
pub const KEY_8: u16 = 9;
pub const KEY_9: u16 = 10;
pub const KEY_0: u16 = 11;
pub const KEY_MINUS: u16 = 12;
pub const KEY_EQUAL: u16 = 13;
pub const KEY_BACKSPACE: u16 = 14;
pub const KEY_TAB: u16 = 15;
pub const KEY_Q: u16 = 16;
pub const KEY_W: u16 = 17;
pub const KEY_E: u16 = 18;
pub const KEY_R: u16 = 19;
pub const KEY_T: u16 = 20;
pub const KEY_Y: u16 = 21;
pub const KEY_U: u16 = 22;
pub const KEY_I: u16 = 23;
pub const KEY_O: u16 = 24;
pub const KEY_P: u16 = 25;
pub const KEY_LEFTBRACE: u16 = 26;
pub const KEY_RIGHTBRACE: u16 = 27;
pub const KEY_ENTER: u16 = 28;
pub const KEY_LEFTCTRL: u16 = 29;
pub const KEY_A: u16 = 30;
pub const KEY_S: u16 = 31;
pub const KEY_D: u16 = 32;
pub const KEY_F: u16 = 33;
pub const KEY_G: u16 = 34;
pub const KEY_H: u16 = 35;
pub const KEY_J: u16 = 36;
pub const KEY_K: u16 = 37;
pub const KEY_L: u16 = 38;
pub const KEY_SEMICOLON: u16 = 39;
pub const KEY_APOSTROPHE: u16 = 40;
pub const KEY_GRAVE: u16 = 41;
pub const KEY_LEFTSHIFT: u16 = 42;
pub const KEY_BACKSLASH: u16 = 43;
pub const KEY_Z: u16 = 44;
pub const KEY_X: u16 = 45;
pub const KEY_C: u16 = 46;
pub const KEY_V: u16 = 47;
pub const KEY_B: u16 = 48;
pub const KEY_N: u16 = 49;
pub const KEY_M: u16 = 50;
pub const KEY_COMMA: u16 = 51;
pub const KEY_DOT: u16 = 52;
pub const KEY_SLASH: u16 = 53;
pub const KEY_RIGHTSHIFT: u16 = 54;
pub const KEY_KPASTERISK: u16 = 55;
pub const KEY_LEFTALT: u16 = 56;
pub const KEY_SPACE: u16 = 57;
pub const KEY_CAPSLOCK: u16 = 58;
pub const KEY_F1: u16 = 59;
pub const KEY_F2: u16 = 60;
pub const KEY_F3: u16 = 61;
pub const KEY_F4: u16 = 62;
pub const KEY_F5: u16 = 63;
pub const KEY_F6: u16 = 64;
pub const KEY_F7: u16 = 65;
pub const KEY_F8: u16 = 66;
pub const KEY_F9: u16 = 67;
pub const KEY_F10: u16 = 68;
pub const KEY_NUMLOCK: u16 = 69;
pub const KEY_SCROLLLOCK: u16 = 70;
pub const KEY_KP7: u16 = 71;
pub const KEY_KP8: u16 = 72;
pub const KEY_KP9: u16 = 73;
pub const KEY_KPMINUS: u16 = 74;
pub const KEY_KP4: u16 = 75;
pub const KEY_KP5: u16 = 76;
pub const KEY_KP6: u16 = 77;
pub const KEY_KPPLUS: u16 = 78;
pub const KEY_KP1: u16 = 79;
pub const KEY_KP2: u16 = 80;
pub const KEY_KP3: u16 = 81;
pub const KEY_KP0: u16 = 82;
pub const KEY_KPDOT: u16 = 83;
pub const KEY_ZENKAKUHANKAKU: u16 = 85;
pub const KEY_102ND: u16 = 86;
pub const KEY_F11: u16 = 87;
pub const KEY_F12: u16 = 88;
pub const KEY_RO: u16 = 89;
pub const KEY_KATAKANA: u16 = 90;
pub const KEY_HIRAGANA: u16 = 91;
pub const KEY_HENKAN: u16 = 92;
pub const KEY_KATAKANAHIRAGANA: u16 = 93;
pub const KEY_MUHENKAN: u16 = 94;
pub const KEY_KPJPCOMMA: u16 = 95;
pub const KEY_KPENTER: u16 = 96;
pub const KEY_RIGHTCTRL: u16 = 97;
pub const KEY_KPSLASH: u16 = 98;
pub const KEY_SYSRQ: u16 = 99;
pub const KEY_RIGHTALT: u16 = 100;
pub const KEY_LINEFEED: u16 = 101;
pub const KEY_HOME: u16 = 102;
pub const KEY_UP: u16 = 103;
pub const KEY_PAGEUP: u16 = 104;
pub const KEY_LEFT: u16 = 105;
pub const KEY_RIGHT: u16 = 106;
pub const KEY_END: u16 = 107;
pub const KEY_DOWN: u16 = 108;
pub const KEY_PAGEDOWN: u16 = 109;
pub const KEY_INSERT: u16 = 110;
pub const KEY_DELETE: u16 = 111;
pub const KEY_MACRO: u16 = 112;
pub const KEY_MUTE: u16 = 113;
pub const KEY_VOLUMEDOWN: u16 = 114;
pub const KEY_VOLUMEUP: u16 = 115;
pub const KEY_POWER: u16 = 116;
pub const KEY_KPEQUAL: u16 = 117;
pub const KEY_KPPLUSMINUS: u16 = 118;
pub const KEY_PAUSE: u16 = 119;
pub const KEY_SCALE: u16 = 120;
pub const KEY_KPCOMMA: u16 = 121;
pub const KEY_HANGEUL: u16 = 122;
pub const KEY_HANGUEL: u16 = KEY_HANGEUL;
pub const KEY_HANJA: u16 = 123;
pub const KEY_YEN: u16 = 124;
pub const KEY_LEFTMETA: u16 = 125;
pub const KEY_RIGHTMETA: u16 = 126;
pub const KEY_COMPOSE: u16 = 127;
pub const KEY_STOP: u16 = 128;
pub const KEY_AGAIN: u16 = 129;
pub const KEY_PROPS: u16 = 130;
pub const KEY_UNDO: u16 = 131;
pub const KEY_FRONT: u16 = 132;
pub const KEY_COPY: u16 = 133;
pub const KEY_OPEN: u16 = 134;
pub const KEY_PASTE: u16 = 135;
pub const KEY_FIND: u16 = 136;
pub const KEY_CUT: u16 = 137;
pub const KEY_HELP: u16 = 138;
pub const KEY_MENU: u16 = 139;
pub const KEY_CALC: u16 = 140;
pub const KEY_SETUP: u16 = 141;
pub const KEY_SLEEP: u16 = 142;
pub const KEY_WAKEUP: u16 = 143;
pub const KEY_FILE: u16 = 144;
pub const KEY_SENDFILE: u16 = 145;
pub const KEY_DELETEFILE: u16 = 146;
pub const KEY_XFER: u16 = 147;
pub const KEY_PROG1: u16 = 148;
pub const KEY_PROG2: u16 = 149;
pub const KEY_WWW: u16 = 150;
pub const KEY_MSDOS: u16 = 151;
pub const KEY_COFFEE: u16 = 152;
pub const KEY_SCREENLOCK: u16 = KEY_COFFEE;
pub const KEY_ROTATE_DISPLAY: u16 = 153;
pub const KEY_DIRECTION: u16 = KEY_ROTATE_DISPLAY;
pub const KEY_CYCLEWINDOWS: u16 = 154;
pub const KEY_MAIL: u16 = 155;
pub const KEY_BOOKMARKS: u16 = 156;
pub const KEY_COMPUTER: u16 = 157;
pub const KEY_BACK: u16 = 158;
pub const KEY_FORWARD: u16 = 159;
pub const KEY_CLOSECD: u16 = 160;
pub const KEY_EJECTCD: u16 = 161;
pub const KEY_EJECTCLOSECD: u16 = 162;
pub const KEY_NEXTSONG: u16 = 163;
pub const KEY_PLAYPAUSE: u16 = 164;
pub const KEY_PREVIOUSSONG: u16 = 165;
pub const KEY_STOPCD: u16 = 166;
pub const KEY_RECORD: u16 = 167;
pub const KEY_REWIND: u16 = 168;
pub const KEY_PHONE: u16 = 169;
pub const KEY_ISO: u16 = 170;
pub const KEY_CONFIG: u16 = 171;
pub const KEY_HOMEPAGE: u16 = 172;
pub const KEY_REFRESH: u16 = 173;
pub const KEY_EXIT: u16 = 174;
pub const KEY_MOVE: u16 = 175;
pub const KEY_EDIT: u16 = 176;
pub const KEY_SCROLLUP: u16 = 177;
pub const KEY_SCROLLDOWN: u16 = 178;
pub const KEY_KPLEFTPAREN: u16 = 179;
pub const KEY_KPRIGHTPAREN: u16 = 180;
pub const KEY_NEW: u16 = 181;
pub const KEY_REDO: u16 = 182;
pub const KEY_F13: u16 = 183;
pub const KEY_F14: u16 = 184;
pub const KEY_F15: u16 = 185;
pub const KEY_F16: u16 = 186;
pub const KEY_F17: u16 = 187;
pub const KEY_F18: u16 = 188;
pub const KEY_F19: u16 = 189;
pub const KEY_F20: u16 = 190;
pub const KEY_F21: u16 = 191;
pub const KEY_F22: u16 = 192;
pub const KEY_F23: u16 = 193;
pub const KEY_F24: u16 = 194;
pub const KEY_PLAYCD: u16 = 200;
pub const KEY_PAUSECD: u16 = 201;
pub const KEY_PROG3: u16 = 202;
pub const KEY_PROG4: u16 = 203;
pub const KEY_ALL_APPLICATIONS: u16 = 204;
pub const KEY_DASHBOARD: u16 = KEY_ALL_APPLICATIONS;
pub const KEY_SUSPEND: u16 = 205;
pub const KEY_CLOSE: u16 = 206;
pub const KEY_PLAY: u16 = 207;
pub const KEY_FASTFORWARD: u16 = 208;
pub const KEY_BASSBOOST: u16 = 209;
pub const KEY_PRINT: u16 = 210;
pub const KEY_HP: u16 = 211;
pub const KEY_CAMERA: u16 = 212;
pub const KEY_SOUND: u16 = 213;
pub const KEY_QUESTION: u16 = 214;
pub const KEY_EMAIL: u16 = 215;
pub const KEY_CHAT: u16 = 216;
pub const KEY_SEARCH: u16 = 217;
pub const KEY_CONNECT: u16 = 218;
pub const KEY_FINANCE: u16 = 219;
pub const KEY_SPORT: u16 = 220;
pub const KEY_SHOP: u16 = 221;
pub const KEY_ALTERASE: u16 = 222;
pub const KEY_CANCEL: u16 = 223;
pub const KEY_BRIGHTNESSDOWN: u16 = 224;
pub const KEY_BRIGHTNESSUP: u16 = 225;
pub const KEY_MEDIA: u16 = 226;
pub const KEY_SWITCHVIDEOMODE: u16 = 227;
pub const KEY_KBDILLUMTOGGLE: u16 = 228;
pub const KEY_KBDILLUMDOWN: u16 = 229;
pub const KEY_KBDILLUMUP: u16 = 230;
pub const KEY_SEND: u16 = 231;
pub const KEY_REPLY: u16 = 232;
pub const KEY_FORWARDMAIL: u16 = 233;
pub const KEY_SAVE: u16 = 234;
pub const KEY_DOCUMENTS: u16 = 235;
pub const KEY_BATTERY: u16 = 236;
pub const KEY_BLUETOOTH: u16 = 237;
pub const KEY_WLAN: u16 = 238;
pub const KEY_UWB: u16 = 239;
pub const KEY_UNKNOWN: u16 = 240;
pub const KEY_VIDEO_NEXT: u16 = 241;
pub const KEY_VIDEO_PREV: u16 = 242;
pub const KEY_BRIGHTNESS_CYCLE: u16 = 243;
pub const KEY_BRIGHTNESS_AUTO: u16 = 244;
pub const KEY_BRIGHTNESS_ZERO: u16 = KEY_BRIGHTNESS_AUTO;
pub const KEY_DISPLAY_OFF: u16 = 245;
pub const KEY_WWAN: u16 = 246;
pub const KEY_WIMAX: u16 = KEY_WWAN;
pub const KEY_RFKILL: u16 = 247;
pub const KEY_MICMUTE: u16 = 248;
/// The scan code sets a keyboard may speak.
pub enum ScanCodeType {
    Unset,
    ScanCOdeSet1,
    ScanCOdeSet2,
    ScanCOdeSet3,
}

/// A keyboard: the scan code set it speaks, its lock states, and the
/// address of the decoder for its scan codes (0 for none).
pub struct KeyBoard {
    pub scan_code_type: ScanCodeType,
    pub capslock_state: bool,
    pub scrlock_state: bool,
    pub numlock_state: bool,
    pub scan_code_set: usize,
}

impl KeyBoard {
    /// A keyboard with no scan code set, all locks off and no decoder.
    pub fn new() -> (k: Self)
        ensures
            k.scan_code_type is Unset,
            !k.capslock_state,
            !k.scrlock_state,
            !k.numlock_state,
            k.scan_code_set == 0,
    {
        KeyBoard { scan_code_type: ScanCodeType::Unset, capslock_state: false, scrlock_state: false, numlock_state: false, scan_code_set: 0 }
    }
}

/// The key code of each scan code of set 2 below 0x84 (`KEY_RESERVED` for
/// the codes that name no key).
pub open spec fn scan_code_set2_map() -> Seq<u16> {
    seq![0u16, 67, 0, 63, 61, 59, 60, 88, 0, 68, 66, 64, 62, 15, 158, 41, 0, 56, 42, 0, 29, 16, 2, 0, 0, 0, 44, 31, 30, 17, 3, 0, 0, 46, 45, 32, 18, 5, 4, 0, 0, 57, 47, 33, 20, 19, 6, 0, 0, 49, 48, 35, 34, 21, 7, 0, 0, 0, 50, 36, 22, 8, 9, 0, 0, 51, 37, 23, 0, 11, 10, 0, 0, 52, 53, 38, 39, 25, 12, 0, 0, 0, 40, 0, 26, 13, 0, 0, 58, 54, 28, 0, 0, 43, 0, 0, 0, 0, 0, 0, 0, 0, 14, 0, 0, 79, 0, 27, 71, 0, 0, 0, 82, 83, 80, 76, 77, 72, 1, 69, 87, 78, 81, 74, 55, 73, 70, 0, 0, 0, 0, 65]
}

/// The decoder of scan code set 2: the key code of each scan code, and
/// whether an extended-code (0xe0) or a break (0xf0) prefix came last,
/// and the keyboard it decodes for (by its address), once attached.
pub struct ScanCodeSet2 {
    pub key_map: [u16; 132],
    pub ext_code_state: bool,
    pub break_state: bool,
    pub keyboard: Option<usize>,
}

/// What the decoder makes of one byte: nothing yet (a prefix), or a key
/// event with its code and value (0 released, 1 pressed, 2 held).
pub enum KeyDecode {
    Prefix,
    Key { code: u16, value: i32 },
}

impl ScanCodeSet2 {
    /// A decoder with the map of scan code set 2, no prefix pending and no
    /// keyboard attached.
    pub fn new() -> (s: Self)
        ensures
            s.key_map@ == scan_code_set2_map(),
            !s.ext_code_state,
            !s.break_state,
            s.keyboard.is_none(),
    {
        let s = ScanCodeSet2 {
            key_map: [
                KEY_RESERVED,
                KEY_F9,
                KEY_RESERVED,
                KEY_F5,
                KEY_F3,
                KEY_F1,
                KEY_F2,
                KEY_F12,
                KEY_RESERVED,
                KEY_F10,
                KEY_F8,
                KEY_F6,
                KEY_F4,
                KEY_TAB,
                KEY_BACK,
                KEY_GRAVE,
                KEY_RESERVED,
                KEY_LEFTALT,
                KEY_LEFTSHIFT,
                KEY_RESERVED,
                KEY_LEFTCTRL,
                KEY_Q,
                KEY_1,
                KEY_RESERVED,
                KEY_RESERVED,
                KEY_RESERVED,
                KEY_Z,
                KEY_S,
                KEY_A,
                KEY_W,
                KEY_2,
                KEY_RESERVED,
                KEY_RESERVED,
                KEY_C,
                KEY_X,
                KEY_D,
                KEY_E,
                KEY_4,
                KEY_3,
                KEY_RESERVED,
                KEY_RESERVED,
                KEY_SPACE,
                KEY_V,
                KEY_F,
                KEY_T,
                KEY_R,
                KEY_5,
                KEY_RESERVED,
                KEY_RESERVED,
                KEY_N,
                KEY_B,
                KEY_H,
                KEY_G,
                KEY_Y,
                KEY_6,
                KEY_RESERVED,
                KEY_RESERVED,
                KEY_RESERVED,
                KEY_M,
                KEY_J,
                KEY_U,
                KEY_7,
                KEY_8,
                KEY_RESERVED,
                KEY_RESERVED,
                KEY_COMMA,
                KEY_K,
                KEY_I,
                KEY_RESERVED,
                KEY_0,
                KEY_9,
                KEY_RESERVED,
                KEY_RESERVED,
                KEY_DOT,
                KEY_SLASH,
                KEY_L,
                KEY_SEMICOLON,
                KEY_P,
                KEY_MINUS,
                KEY_RESERVED,
                KEY_RESERVED,
                KEY_RESERVED,
                KEY_APOSTROPHE,
                KEY_RESERVED,
                KEY_LEFTBRACE,
                KEY_EQUAL,
                KEY_RESERVED,
                KEY_RESERVED,
                KEY_CAPSLOCK,
                KEY_RIGHTSHIFT,
                KEY_ENTER,
                KEY_RESERVED,
                KEY_RESERVED,
                KEY_BACKSLASH,
                KEY_RESERVED,
                KEY_RESERVED,
                KEY_RESERVED,
                KEY_RESERVED,
                KEY_RESERVED,
                KEY_RESERVED,
                KEY_RESERVED,
                KEY_RESERVED,
                KEY_BACKSPACE,
                KEY_RESERVED,
                KEY_RESERVED,
                KEY_KP1,
                KEY_RESERVED,
                KEY_RIGHTBRACE,
                KEY_KP7,
                KEY_RESERVED,
                KEY_RESERVED,
                KEY_RESERVED,
                KEY_KP0,
                KEY_KPDOT,
                KEY_KP2,
                KEY_KP5,
                KEY_KP6,
                KEY_KP8,
                KEY_ESC,
                KEY_NUMLOCK,
                KEY_F11,
                KEY_KPPLUS,
                KEY_KP3,
                KEY_KPMINUS,
                KEY_KPASTERISK,
                KEY_KP9,
                KEY_SCROLLLOCK,
                KEY_RESERVED,
                KEY_RESERVED,
                KEY_RESERVED,
                KEY_RESERVED,
                KEY_F7,
            ],
            ext_code_state: false,
            break_state: false,
            keyboard: None,
        };
        assert(s.key_map@ =~= scan_code_set2_map());
        s
    }

    /// Attaches the keyboard at address `keyboard` to the decoder; the
    /// controller set-up and the interrupt line are the caller's.
    pub fn attach(&mut self, keyboard: usize)
        ensures
            final(self).keyboard == Some(keyboard),
            final(self).key_map == old(self).key_map,
            final(self).ext_code_state == old(self).ext_code_state,
            final(self).break_state == old(self).break_state,
    {
        self.keyboard = Some(keyboard);
    }

    /// Decodes one byte from the keyboard. 0xf0 marks the next key as
    /// released and 0xe0 marks an extended code; both wait for the next
    /// byte. Otherwise the byte's key is released (value 0) after 0xf0,
    /// held (2) when it is down already, and pressed (1) when it is not;
    /// `key_status` records which keys are down. Extended codes are not
    /// decoded, so no plain byte may follow 0xe0; a plain byte must be a
    /// scan code of the map.
    pub fn decode(&mut self, key_status: &mut [bool; 256], scan_code: u8) -> (d: KeyDecode)
        requires
            old(self).key_map@ == scan_code_set2_map(),
            scan_code != 0xf0 && scan_code != 0xe0 ==> !old(self).ext_code_state && scan_code < 132,
        ensures
            final(self).key_map == old(self).key_map,
            scan_code == 0xf0 ==> d is Prefix && final(self).break_state && final(self).ext_code_state == old(self).ext_code_state
                && *final(key_status) == *old(key_status),
            scan_code == 0xe0 ==> d is Prefix && final(self).ext_code_state && final(self).break_state == old(self).break_state
                && *final(key_status) == *old(key_status),
            scan_code != 0xf0 && scan_code != 0xe0 ==> {
                let code = scan_code_set2_map()[scan_code as int];
                &&& !final(self).break_state
                &&& final(self).ext_code_state == old(self).ext_code_state
                &&& old(self).break_state ==> d == (KeyDecode::Key { code, value: 0 })
                        && final(key_status)@ == old(key_status)@.update(code as int, false)
                &&& !old(self).break_state && old(key_status)@[code as int] ==> d == (KeyDecode::Key { code, value: 2 })
                        && *final(key_status) == *old(key_status)
                &&& !old(self).break_state && !old(key_status)@[code as int] ==> d == (KeyDecode::Key { code, value: 1 })
                        && final(key_status)@ == old(key_status)@.update(code as int, true)
            },
    {
        if scan_code == 0xf0 {
            self.break_state = true;
            return KeyDecode::Prefix;
        }
        if scan_code == 0xe0 {
            self.ext_code_state = true;
            return KeyDecode::Prefix;
        }
        let code = self.key_map[scan_code as usize];
        proof {
            assert(forall|i: int| 0 <= i < 132 ==> #[trigger] scan_code_set2_map()[i] < 256);
        }
        let value: i32;
        if self.break_state {
            value = 0;
            key_status[code as usize] = false;
            self.break_state = false;
        } else {
            if key_status[code as usize] {
                value = 2;
            } else {
                key_status[code as usize] = true;
                value = 1;
            }
        }
        KeyDecode::Key { code, value }
    }
}

/// The input event for a decoded key, stamped with `now`.
pub fn key_event(code: u16, value: i32, now: Time) -> (e: InputEvent)
    ensures
        e.spec_type() == EV_KEY,
        e.code() == code,
        e.value() == value,
        e.time() == now,
{
    InputEvent::new(EV_KEY, code, value, now)
}

} // verus!
