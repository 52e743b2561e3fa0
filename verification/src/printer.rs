//! Printer configurations and their validation: names, ports per
//! transport type, and paper widths, plus the helper texts the
//! configuration screens show.

use vstd::prelude::*;

use crate::text::{
    all_digits, chars_of, dec_val_of, eq_fold, parse_u64, str_eq, trim_chars, trim_of,
};
use crate::trusted::string_from_chars;

verus! {

/// How a printer is reached.
#[derive(Debug, Clone, Copy, PartialEq, Eq, Structural)]
pub enum PrinterType {
    Serial,
    USB,
    Network,
    Windows,
}

/// One configured printer.
#[derive(Debug)]
pub struct PrinterConfig {
    pub name: String,
    pub port: String,
    pub printer_type: PrinterType,
    pub paper_width: u32,
    pub is_default: bool,
}

impl Clone for PrinterConfig {
    /// A clone equals the original in every field.
    fn clone(&self) -> (r: Self)
        ensures
            r == *self,
    {
        PrinterConfig {
            name: self.name.clone(),
            port: self.port.clone(),
            printer_type: self.printer_type,
            paper_width: self.paper_width,
            is_default: self.is_default,
        }
    }
}

/// The built-in fallback printer configuration.
pub fn default_printer() -> (r: PrinterConfig)
    ensures
        r.name@ == "Imprimante par defaut (Simulation)"@,
        r.port@ == "/dev/null"@,
        r.printer_type == PrinterType::USB,
        r.paper_width == 48,
        r.is_default,
{
    PrinterConfig {
        name: "Imprimante par defaut (Simulation)".to_owned(),
        port: "/dev/null".to_owned(),
        printer_type: PrinterType::USB,
        paper_width: 48,
        is_default: true,
    }
}

/// The first configuration marked as default, if any.
pub fn get_default_printer(configs: &Vec<PrinterConfig>) -> (r: Option<PrinterConfig>)
    ensures
        match r {
            Some(c) => exists|i: int|
                {
                    &&& 0 <= i < configs@.len()
                    &&& (#[trigger] configs@[i]).is_default
                    &&& c == configs@[i]
                    &&& forall|j: int| 0 <= j < i ==> !(#[trigger] configs@[j]).is_default
                },
            None => forall|i: int| 0 <= i < configs@.len() ==> !(#[trigger] configs@[i]).is_default,
        },
{
    let mut i: usize = 0;
    while i < configs.len()
        invariant
            i <= configs@.len(),
            forall|j: int| 0 <= j < i ==> !(#[trigger] configs@[j]).is_default,
        decreases configs@.len() - i,
    {
        if configs[i].is_default {
            return Some(configs[i].clone());
        }
        i = i + 1;
    }
    None
}

/// The first configuration carrying this name, if any.
pub fn get_printer_by_name(configs: &Vec<PrinterConfig>, name: &str) -> (r: Option<PrinterConfig>)
    ensures
        match r {
            Some(c) => exists|i: int|
                {
                    &&& 0 <= i < configs@.len()
                    &&& (#[trigger] configs@[i]).name@ == name@
                    &&& c == configs@[i]
                },
            None => forall|i: int| 0 <= i < configs@.len() ==> (#[trigger] configs@[i]).name@
                != name@,
        },
{
    let mut i: usize = 0;
    while i < configs.len()
        invariant
            i <= configs@.len(),
            forall|j: int| 0 <= j < i ==> (#[trigger] configs@[j]).name@ != name@,
        decreases configs@.len() - i,
    {
        if str_eq(configs[i].name.as_str(), name) {
            return Some(configs[i].clone());
        }
        i = i + 1;
    }
    None
}

/// Adds a printer to a configuration list: a new default clears every
/// other default flag; the first printer always becomes the default.
pub fn add_printer(configs: Vec<PrinterConfig>, new_config: PrinterConfig) -> (r: Vec<
    PrinterConfig,
>)
    ensures
        r@.len() == configs@.len() + 1,
        r@.last().name == new_config.name,
        r@.last().port == new_config.port,
        r@.last().printer_type == new_config.printer_type,
        r@.last().paper_width == new_config.paper_width,
        r@.last().is_default == (new_config.is_default || configs@.len() == 0),
        forall|i: int|
            0 <= i < configs@.len() ==> (#[trigger] r@[i]) == (if new_config.is_default {
                PrinterConfig { is_default: false, ..configs@[i] }
            } else {
                configs@[i]
            }),
{
    let mut configs = configs;
    let mut new_config = new_config;
    let ghost orig = configs@;
    if new_config.is_default {
        let mut i: usize = 0;
        while i < configs.len()
            invariant
                configs@.len() == orig.len(),
                i <= orig.len(),
                forall|j: int|
                    0 <= j < i ==> (#[trigger] configs@[j]) == (PrinterConfig {
                        is_default: false,
                        ..orig[j]
                    }),
                forall|j: int| i <= j < orig.len() ==> (#[trigger] configs@[j]) == orig[j],
            decreases orig.len() - i,
        {
            let updated = PrinterConfig { is_default: false, ..configs[i].clone() };
            vstd::pervasive::VecAdditionalExecFns::set(&mut configs, i, updated);
            i = i + 1;
        }
    } else if configs.len() == 0 {
        new_config.is_default = true;
    }
    configs.push(new_config);
    configs
}

/// An error raised while validating or driving a printer.
#[derive(Debug, Clone)]
pub enum PrinterError {
    ValidationError(String),
    ConnectionError(String),
    ConfigurationError(String),
    NetworkError(String),
    SystemError(String),
    DuplicateError(String),
}

impl PrinterError {
    /// The user-facing message: the variant's icon, its category label
    /// and the detail.
    pub fn message(&self) -> (r: String)
        ensures
            r@ == match self {
                PrinterError::ValidationError(m) => "❌ Erreur de validation : "@ + m@,
                PrinterError::ConnectionError(m) => "🔌 Erreur de connexion : "@ + m@,
                PrinterError::ConfigurationError(m) => "⚙️ Erreur de configuration : "@ + m@,
                PrinterError::NetworkError(m) => "🌐 Erreur réseau : "@ + m@,
                PrinterError::SystemError(m) => "💻 Erreur système : "@ + m@,
                PrinterError::DuplicateError(m) => "🔄 Doublon : "@ + m@,
            },
    {
        match self {
            PrinterError::ValidationError(m) => "❌ Erreur de validation : ".to_owned().concat(
                m.as_str(),
            ),
            PrinterError::ConnectionError(m) => "🔌 Erreur de connexion : ".to_owned().concat(
                m.as_str(),
            ),
            PrinterError::ConfigurationError(m) => "⚙️ Erreur de configuration : "
                .to_owned()
                .concat(m.as_str()),
            PrinterError::NetworkError(m) => "🌐 Erreur réseau : ".to_owned().concat(m.as_str()),
            PrinterError::SystemError(m) => "💻 Erreur système : ".to_owned().concat(m.as_str()),
            PrinterError::DuplicateError(m) => "🔄 Doublon : ".to_owned().concat(m.as_str()),
        }
    }

    /// The icon shown next to the message.
    pub fn icon(&self) -> (r: &'static str)
        ensures
            r@ == match self {
                PrinterError::ValidationError(_) => "❌"@,
                PrinterError::ConnectionError(_) => "🔌"@,
                PrinterError::ConfigurationError(_) => "⚙️"@,
                PrinterError::NetworkError(_) => "🌐"@,
                PrinterError::SystemError(_) => "💻"@,
                PrinterError::DuplicateError(_) => "🔄"@,
            },
    {
        match self {
            PrinterError::ValidationError(_) => "❌",
            PrinterError::ConnectionError(_) => "🔌",
            PrinterError::ConfigurationError(_) => "⚙️",
            PrinterError::NetworkError(_) => "🌐",
            PrinterError::SystemError(_) => "💻",
            PrinterError::DuplicateError(_) => "🔄",
        }
    }

    /// The display colour of the message.
    pub fn color(&self) -> (r: &'static str)
        ensures
            r@ == match self {
                PrinterError::ValidationError(_) => "#e74c3c"@,
                PrinterError::ConnectionError(_) => "#f39c12"@,
                PrinterError::ConfigurationError(_) => "#9b59b6"@,
                PrinterError::NetworkError(_) => "#3498db"@,
                PrinterError::SystemError(_) => "#34495e"@,
                PrinterError::DuplicateError(_) => "#e67e22"@,
            },
    {
        match self {
            PrinterError::ValidationError(_) => "#e74c3c",
            PrinterError::ConnectionError(_) => "#f39c12",
            PrinterError::ConfigurationError(_) => "#9b59b6",
            PrinterError::NetworkError(_) => "#3498db",
            PrinterError::SystemError(_) => "#34495e",
            PrinterError::DuplicateError(_) => "#e67e22",
        }
    }
}

/// A character a printer name may not contain.
pub open spec fn name_forbidden(c: char) -> bool {
    c == '<' || c == '>' || c == ':' || c == '"' || c == '|' || c == '?' || c == '*' || c == '\\'
        || c == '/' || c == '\n' || c == '\r' || c == '\t'
}

/// A character a Windows printer name may not contain.
pub open spec fn windows_forbidden(c: char) -> bool {
    c == '<' || c == '>' || c == ':' || c == '"' || c == '|' || c == '?' || c == '*' || c == '\\'
        || c == '/'
}

/// A printer name is acceptable: trimmed, three to fifty characters,
/// no forbidden character.
pub open spec fn name_shape_ok(name: Seq<char>) -> bool {
    let t = trim_of(name);
    &&& 3 <= t.len() <= 50
    &&& forall|k: int| 0 <= k < t.len() ==> !name_forbidden(#[trigger] t[k])
}

/// The trimmed name collides case-insensitively with an existing name.
pub open spec fn name_duplicate(name: Seq<char>, existing: Seq<String>) -> bool {
    exists|i: int| 0 <= i < existing.len() && eq_fold((#[trigger] existing[i])@, trim_of(name))
}

/// The dotted-quad shape of an IPv4 address: four decimal parts,
/// each up to 255 with no superfluous leading zero.
pub open spec fn ipv4_part_ok(p: Seq<char>) -> bool {
    &&& 1 <= p.len() <= 3
    &&& all_digits(p)
    &&& crate::text::digits_val(p) <= 255
    &&& (p.len() > 1 ==> p[0] != '0')
}

/// The first part of a split grows at the front.
pub open spec fn grow_first(c: char, parts: Seq<Seq<char>>) -> Seq<Seq<char>>
    recommends
        parts.len() >= 1,
{
    parts.update(0, seq![c] + parts[0])
}

/// Splitting a character sequence at a separator: one part more than
/// there are separators, in order, none containing the separator.
pub open spec fn split_of(s: Seq<char>, sep: char) -> Seq<Seq<char>>
    decreases s.len(),
{
    if s.len() == 0 {
        seq![Seq::<char>::empty()]
    } else if s[0] == sep {
        seq![Seq::<char>::empty()] + split_of(s.drop_first(), sep)
    } else {
        grow_first(s[0], split_of(s.drop_first(), sep))
    }
}

proof fn lemma_split_of_len(s: Seq<char>, sep: char)
    ensures
        split_of(s, sep).len() >= 1,
    decreases s.len(),
{
    if s.len() > 0 {
        lemma_split_of_len(s.drop_first(), sep);
    }
}

/// Appending the still-growing first part in front of the remaining
/// split gives the split of the whole.
spec fn split_state(s: Seq<char>, sep: char, done: Seq<Seq<char>>, cur: Seq<char>, i: int) -> bool {
    &&& 0 <= i <= s.len()
    &&& split_of(s, sep) == done + grow_all(cur, split_of(s.skip(i), sep))
}

/// The current partial part prefixed onto the first remaining part.
spec fn grow_all(cur: Seq<char>, parts: Seq<Seq<char>>) -> Seq<Seq<char>>
    recommends
        parts.len() >= 1,
{
    parts.update(0, cur + parts[0])
}

proof fn lemma_grow_all_compose(cur: Seq<char>, c: char, parts: Seq<Seq<char>>)
    requires
        parts.len() >= 1,
    ensures
        grow_all(cur, grow_first(c, parts)) == grow_all(cur.push(c), parts),
{
    assert(grow_all(cur, grow_first(c, parts)) =~= grow_all(cur.push(c), parts)) by {
        assert((cur + (seq![c] + parts[0])) =~= (cur.push(c) + parts[0]));
        assert(grow_all(cur, grow_first(c, parts)) =~= parts.update(
            0,
            cur + (seq![c] + parts[0]),
        ));
    }
}

/// Splits a character sequence at one separator character.
fn split_on(s: &Vec<char>, sep: char) -> (r: Vec<Vec<char>>)
    ensures
        r@.map_values(|v: Vec<char>| v@) == split_of(s@, sep),
        r@.len() >= 1,
{
    let mut parts: Vec<Vec<char>> = Vec::new();
    let mut cur: Vec<char> = Vec::new();
    let n = s.len();
    let mut i: usize = 0;
    proof {
        assert(s@.skip(0) =~= s@);
        lemma_split_of_len(s@, sep);
        assert(Seq::<Seq<char>>::empty() + grow_all(Seq::<char>::empty(), split_of(s@, sep))
            =~= grow_all(Seq::empty(), split_of(s@, sep)));
        assert(grow_all(Seq::<char>::empty(), split_of(s@, sep)) =~= split_of(s@, sep)) by {
            assert(Seq::<char>::empty() + split_of(s@, sep)[0] =~= split_of(s@, sep)[0]);
        }
    }
    while i < n
        invariant
            n == s@.len(),
            i <= n,
            split_of(s@, sep) == parts@.map_values(|v: Vec<char>| v@) + grow_all(
                cur@,
                split_of(s@.skip(i as int), sep),
            ),
        decreases n - i,
    {
        let ghost old_done = parts@.map_values(|v: Vec<char>| v@);
        let ghost old_cur = cur@;
        let ghost rest = split_of(s@.skip(i as int), sep);
        let ghost rest2 = split_of(s@.skip(i + 1), sep);
        proof {
            assert(s@.skip(i as int)[0] == s@[i as int]);
            assert(s@.skip(i as int).drop_first() =~= s@.skip(i + 1));
            lemma_split_of_len(s@.skip(i + 1), sep);
        }
        let c = s[i];
        if c == sep {
            // the split gains a finished part in front of the rest
            let mut fresh: Vec<char> = Vec::new();
            core::mem::swap(&mut fresh, &mut cur);
            parts.push(fresh);
            proof {
                assert(rest == seq![Seq::<char>::empty()] + rest2);
                assert(grow_all(old_cur, rest) =~= seq![old_cur] + rest2) by {
                    assert(rest[0] =~= Seq::<char>::empty());
                    assert(old_cur + rest[0] =~= old_cur);
                    assert(grow_all(old_cur, rest) =~= rest.update(0, old_cur));
                }
                assert(parts@.map_values(|v: Vec<char>| v@) =~= old_done.push(old_cur));
                assert(old_done.push(old_cur) + grow_all(Seq::<char>::empty(), rest2)
                    =~= old_done + (seq![old_cur] + rest2)) by {
                    assert(grow_all(Seq::<char>::empty(), rest2) =~= rest2) by {
                        assert(Seq::<char>::empty() + rest2[0] =~= rest2[0]);
                    }
                }
            }
        } else {
            cur.push(c);
            proof {
                assert(rest == grow_first(s@[i as int], rest2));
                lemma_grow_all_compose(old_cur, s@[i as int], rest2);
            }
        }
        i = i + 1;
    }
    proof {
        assert(s@.skip(n as int) =~= Seq::<char>::empty());
        let rest = split_of(s@.skip(n as int), sep);
        assert(rest =~= seq![Seq::<char>::empty()]);
        assert(grow_all(cur@, rest) =~= seq![cur@]) by {
            assert(cur@ + rest[0] =~= cur@);
            assert(grow_all(cur@, rest) =~= rest.update(0, cur@));
        }
    }
    let ghost old_done = parts@.map_values(|v: Vec<char>| v@);
    let ghost final_cur = cur@;
    parts.push(cur);
    proof {
        assert(parts@.map_values(|v: Vec<char>| v@) =~= old_done.push(final_cur));
        assert(old_done.push(final_cur) =~= old_done + seq![final_cur]);
    }
    parts
}

/// The IPv4 shape: exactly four acceptable parts between the dots.
pub open spec fn ipv4_ok(s: Seq<char>) -> bool {
    let p = split_of(s, '.');
    &&& p.len() == 4
    &&& ipv4_part_ok(p[0])
    &&& ipv4_part_ok(p[1])
    &&& ipv4_part_ok(p[2])
    &&& ipv4_part_ok(p[3])
}

/// A trimmed port is acceptable for a transport type: the type is one
/// of the four known ones and the port meets that type's own rule.
pub open spec fn port_ok(t: Seq<char>, ptype: Seq<char>) -> bool {
    &&& t.len() > 0
    &&& (ptype == "Serial"@ || ptype == "USB"@ || ptype == "Network"@ || ptype == "Windows"@)
    &&& (ptype == "Serial"@ ==> t.len() >= 10 && t.subrange(0, 5) == "/dev/"@)
    &&& (ptype == "USB"@ ==> t.len() <= 100)
    &&& (ptype == "Network"@ ==> {
        let p = split_of(t, ':');
        p.len() == 2 && ipv4_ok(p[0]) && port_num_ok(p[1])
    })
    &&& (ptype == "Windows"@ ==> t.len() <= 100 && forall|k: int|
        0 <= k < t.len() ==> !windows_forbidden(#[trigger] t[k]))
}

/// A printer name is acceptable: well shaped and no case-insensitive
/// collision with an existing name.
pub open spec fn name_ok(name: Seq<char>, existing: Seq<String>) -> bool {
    name_shape_ok(name) && !name_duplicate(name, existing)
}

/// A container for the printer validation rules.
pub struct PrinterErrorHandler;

impl PrinterErrorHandler {
    /// Validates a whole configuration: name, port for the transport
    /// type, and paper width, in that order; it succeeds exactly when
    /// all three checks pass, and a failure is the first failing
    /// check's own error.
    pub fn validate_printer_config(
        name: &str,
        port: &str,
        printer_type: &str,
        paper_width: &str,
        existing_names: &Vec<String>,
    ) -> (r: Result<(), PrinterError>)
        ensures
            r is Ok <==> (name_ok(name@, existing_names@) && port_ok(
                trim_of(port@),
                printer_type@,
            ) && width_ok(paper_width@)),
            match r {
                Ok(_) => true,
                Err(e) => if !name_ok(name@, existing_names@) {
                    &&& (e is ValidationError <==> !name_shape_ok(name@))
                    &&& (e is DuplicateError <==> name_shape_ok(name@) && name_duplicate(
                        name@,
                        existing_names@,
                    ))
                } else if !port_ok(trim_of(port@), printer_type@) {
                    e is ValidationError || e is NetworkError
                } else {
                    !width_ok(paper_width@) && e is ValidationError
                },
            },
    {
        match Self::validate_name(name, existing_names) {
            Ok(_) => {},
            Err(e) => {
                return Err(e);
            },
        }
        match Self::validate_port(port, printer_type) {
            Ok(_) => {},
            Err(e) => {
                return Err(e);
            },
        }
        match Self::validate_paper_width(paper_width) {
            Ok(_) => {},
            Err(e) => {
                return Err(e);
            },
        }
        Ok(())
    }

    /// Validates a printer name: trimmed it must have three to fifty
    /// characters, none forbidden, and must not collide
    /// case-insensitively with an existing name.
    pub fn validate_name(name: &str, existing_names: &Vec<String>) -> (r: Result<
        (),
        PrinterError,
    >)
        ensures
            match r {
                Ok(_) => name_shape_ok(name@) && !name_duplicate(name@, existing_names@),
                Err(PrinterError::ValidationError(_)) => !name_shape_ok(name@),
                Err(PrinterError::DuplicateError(_)) => name_shape_ok(name@) && name_duplicate(
                    name@,
                    existing_names@,
                ),
                Err(_) => false,
            },
    {
        let cs = chars_of(name);
        let t = trim_chars(&cs);
        if t.len() == 0 {
            return Err(
                PrinterError::ValidationError("le nom ne peut pas etre vide".to_owned()),
            );
        }
        if t.len() > 50 {
            return Err(
                PrinterError::ValidationError("le nom depasse cinquante caracteres".to_owned()),
            );
        }
        if t.len() < 3 {
            return Err(
                PrinterError::ValidationError("le nom doit avoir au moins trois caracteres".to_owned()),
            );
        }
        let mut k: usize = 0;
        while k < t.len()
            invariant
                t@ == trim_of(name@),
                k <= t@.len(),
                forall|j: int| 0 <= j < k ==> !name_forbidden(#[trigger] t@[j]),
            decreases t@.len() - k,
        {
            let c = t[k];
            if c == '<' || c == '>' || c == ':' || c == '"' || c == '|' || c == '?' || c == '*'
                || c == '\\' || c == '/' || c == '\n' || c == '\r' || c == '\t' {
                return Err(
                    PrinterError::ValidationError("caractere interdit dans le nom".to_owned()),
                );
            }
            k = k + 1;
        }
        let mut i: usize = 0;
        while i < existing_names.len()
            invariant
                t@ == trim_of(name@),
                name_shape_ok(name@),
                i <= existing_names@.len(),
                forall|j: int|
                    0 <= j < i ==> !eq_fold((#[trigger] existing_names@[j])@, trim_of(name@)),
            decreases existing_names@.len() - i,
        {
            let e = chars_of(existing_names[i].as_str());
            if crate::text::eq_ignore_case(&e, &t) {
                return Err(
                    PrinterError::DuplicateError("une imprimante porte deja ce nom".to_owned()),
                );
            }
            i = i + 1;
        }
        Ok(())
    }

    /// Validates a port for a transport type: it succeeds exactly when
    /// the trimmed port satisfies the known transport's own rule.
    pub fn validate_port(port: &str, printer_type: &str) -> (r: Result<(), PrinterError>)
        ensures
            r is Ok <==> port_ok(trim_of(port@), printer_type@),
            r matches Err(e) ==> (e is ValidationError || e is NetworkError),
    {
        proof {
            reveal_strlit("Serial");
            reveal_strlit("USB");
            reveal_strlit("Network");
            reveal_strlit("Windows");
            assert("Serial"@.len() == 6 && "USB"@.len() == 3 && "Network"@.len() == 7
                && "Windows"@.len() == 7);
            assert("Network"@[0] == 'N' && "Windows"@[0] == 'W');
        }
        let cs = chars_of(port);
        let t = trim_chars(&cs);
        if t.len() == 0 {
            return Err(
                PrinterError::ValidationError("le port ne peut pas etre vide".to_owned()),
            );
        }
        let ts = string_from_chars(&t);
        if str_eq(printer_type, "Serial") {
            Self::validate_serial_port(ts.as_str())
        } else if str_eq(printer_type, "USB") {
            Self::validate_usb_port(ts.as_str())
        } else if str_eq(printer_type, "Network") {
            Self::validate_network_port(ts.as_str())
        } else if str_eq(printer_type, "Windows") {
            Self::validate_windows_port(ts.as_str())
        } else {
            Err(PrinterError::ValidationError("type d'imprimante non reconnu".to_owned()))
        }
    }

    /// Validates a serial device path: `/dev/...`, at least ten
    /// characters.
    pub fn validate_serial_port(port: &str) -> (r: Result<(), PrinterError>)
        ensures
            match r {
                Ok(_) => port@.len() >= 10 && port@.subrange(0, 5) == "/dev/"@,
                Err(PrinterError::ValidationError(_)) => port@.len() < 10 || port@.subrange(0, 5)
                    != "/dev/"@,
                Err(_) => false,
            },
    {
        let n = port.unicode_len();
        if n < 5 {
            proof {
                reveal_strlit("/dev/");
            }
            return Err(
                PrinterError::ValidationError("chemin de port serie invalide".to_owned()),
            );
        }
        let prefix = port.substring_char(0, 5);
        if !str_eq(prefix, "/dev/") {
            return Err(
                PrinterError::ValidationError("chemin de port serie invalide".to_owned()),
            );
        }
        if n < 10 {
            return Err(PrinterError::ValidationError("nom de port serie trop court".to_owned()));
        }
        Ok(())
    }

    /// Validates a USB port label: anything up to one hundred characters.
    pub fn validate_usb_port(port: &str) -> (r: Result<(), PrinterError>)
        ensures
            match r {
                Ok(_) => port@.len() <= 100,
                Err(PrinterError::ValidationError(_)) => port@.len() > 100,
                Err(_) => false,
            },
    {
        if port.unicode_len() > 100 {
            return Err(PrinterError::ValidationError("nom de port USB trop long".to_owned()));
        }
        Ok(())
    }

    /// Validates a network endpoint `IP:PORT`: a dotted-quad IPv4
    /// address, one colon, and a non-zero port number of at most 65535.
    pub fn validate_network_port(port: &str) -> (r: Result<(), PrinterError>)
        ensures
            ({
                let p = split_of(port@, ':');
                match r {
                    Ok(_) => p.len() == 2 && ipv4_ok(p[0]) && port_num_ok(p[1]),
                    Err(PrinterError::NetworkError(_)) => !(p.len() == 2 && ipv4_ok(p[0])
                        && port_num_ok(p[1])),
                    Err(_) => false,
                }
            }),
    {
        let cs = chars_of(port);
        let parts = split_on(&cs, ':');
        if parts.len() != 2 {
            return Err(
                PrinterError::NetworkError("format attendu: IP:PORT avec un seul deux-points".to_owned()),
            );
        }
        proof {
            let pviews = parts@.map_values(|v: Vec<char>| v@);
            assert(pviews[0] == parts@[0]@ && pviews[1] == parts@[1]@);
        }
        if !ipv4_check(&parts[0]) {
            return Err(PrinterError::NetworkError("adresse IP invalide".to_owned()));
        }
        match parse_u64(&parts[1]) {
            Some(v) => {
                if v == 0 {
                    Err(
                        PrinterError::NetworkError(
                            "le numero de port ne peut pas etre zero".to_owned(),
                        ),
                    )
                } else if v > 65535 {
                    Err(PrinterError::NetworkError("numero de port invalide".to_owned()))
                } else {
                    Ok(())
                }
            },
            None => Err(PrinterError::NetworkError("numero de port invalide".to_owned())),
        }
    }

    /// Validates a Windows printer name: up to one hundred characters,
    /// none forbidden.
    pub fn validate_windows_port(port: &str) -> (r: Result<(), PrinterError>)
        ensures
            match r {
                Ok(_) => port@.len() <= 100 && forall|k: int|
                    0 <= k < port@.len() ==> !windows_forbidden(#[trigger] port@[k]),
                Err(PrinterError::ValidationError(_)) => port@.len() > 100 || exists|k: int|
                    0 <= k < port@.len() && windows_forbidden(#[trigger] port@[k]),
                Err(_) => false,
            },
    {
        let cs = chars_of(port);
        if cs.len() > 100 {
            return Err(
                PrinterError::ValidationError("nom d'imprimante Windows trop long".to_owned()),
            );
        }
        let mut k: usize = 0;
        while k < cs.len()
            invariant
                cs@ == port@,
                k <= cs@.len(),
                forall|j: int| 0 <= j < k ==> !windows_forbidden(#[trigger] cs@[j]),
            decreases cs@.len() - k,
        {
            let c = cs[k];
            if c == '<' || c == '>' || c == ':' || c == '"' || c == '|' || c == '?' || c == '*'
                || c == '\\' || c == '/' {
                return Err(
                    PrinterError::ValidationError(
                        "caractere interdit dans le nom d'imprimante".to_owned(),
                    ),
                );
            }
            k = k + 1;
        }
        Ok(())
    }

    /// Validates a paper width: the text of 32, 48 or 64.
    pub fn validate_paper_width(width_str: &str) -> (r: Result<(), PrinterError>)
        ensures
            match r {
                Ok(_) => width_ok(width_str@),
                Err(PrinterError::ValidationError(_)) => !width_ok(width_str@),
                Err(_) => false,
            },
    {
        let cs = chars_of(width_str);
        match parse_u64(&cs) {
            Some(v) => {
                if v == 32 || v == 48 || v == 64 {
                    Ok(())
                } else {
                    Err(
                        PrinterError::ValidationError(
                            "largeur de papier non supportee: 32, 48 ou 64".to_owned(),
                        ),
                    )
                }
            },
            None => Err(PrinterError::ValidationError("largeur de papier invalide".to_owned())),
        }
    }

    /// The example ports offered for a transport type.
    pub fn get_port_suggestions(printer_type: &str) -> (r: Vec<String>)
        ensures
            suggestions_for(printer_type@, r@.map_values(|s: String| s@)),
    {
        let mut v: Vec<String> = Vec::new();
        if str_eq(printer_type, "Serial") {
            v.push("/dev/ttyUSB0".to_owned());
            v.push("/dev/ttyUSB1".to_owned());
            v.push("/dev/ttyACM0".to_owned());
            v.push("/dev/ttyACM1".to_owned());
            proof {
                assert(v@.map_values(|s: String| s@) =~= seq![
                    "/dev/ttyUSB0"@, "/dev/ttyUSB1"@, "/dev/ttyACM0"@, "/dev/ttyACM1"@,
                ]);
            }
        } else if str_eq(printer_type, "Network") {
            v.push("192.168.1.100:9100".to_owned());
            v.push("192.168.1.101:9100".to_owned());
            v.push("192.168.0.100:9100".to_owned());
            v.push("10.0.0.100:9100".to_owned());
            proof {
                assert(v@.map_values(|s: String| s@) =~= seq![
                    "192.168.1.100:9100"@, "192.168.1.101:9100"@, "192.168.0.100:9100"@,
                    "10.0.0.100:9100"@,
                ]);
            }
        } else if str_eq(printer_type, "Windows") {
            v.push("Imprimante par defaut".to_owned());
            v.push("HP LaserJet".to_owned());
            v.push("Canon PIXMA".to_owned());
            v.push("Epson L3150".to_owned());
            proof {
                assert(v@.map_values(|s: String| s@) =~= seq![
                    "Imprimante par defaut"@, "HP LaserJet"@, "Canon PIXMA"@, "Epson L3150"@,
                ]);
            }
        } else if str_eq(printer_type, "USB") {
            v.push("USB001".to_owned());
            v.push("USB002".to_owned());
            v.push("AUTO".to_owned());
            proof {
                assert(v@.map_values(|s: String| s@) =~= seq!["USB001"@, "USB002"@, "AUTO"@]);
            }
        } else {
            proof {
                assert(v@.map_values(|s: String| s@) =~= Seq::<Seq<char>>::empty());
            }
        }
        v
    }

    /// The contextual help text for a transport type.
    pub fn get_help_message(printer_type: &str) -> (r: String)
        ensures
            r@ == help_text(printer_type@),
    {
        if str_eq(printer_type, "Serial") {
            "Ports serie: /dev/ttyUSB0, /dev/ttyACM0, etc.".to_owned()
        } else if str_eq(printer_type, "USB") {
            "Imprimantes USB directes, detectees automatiquement.".to_owned()
        } else if str_eq(printer_type, "Network") {
            "Imprimantes reseau au format IP:PORT, port standard 9100.".to_owned()
        } else if str_eq(printer_type, "Windows") {
            "Nom de l'imprimante systeme Windows.".to_owned()
        } else {
            "Selectionnez un type d'imprimante pour voir l'aide.".to_owned()
        }
    }
}

/// The help text belonging to a transport type.
pub open spec fn help_text(t: Seq<char>) -> Seq<char> {
    if t == "Serial"@ {
        "Ports serie: /dev/ttyUSB0, /dev/ttyACM0, etc."@
    } else if t == "USB"@ {
        "Imprimantes USB directes, detectees automatiquement."@
    } else if t == "Network"@ {
        "Imprimantes reseau au format IP:PORT, port standard 9100."@
    } else if t == "Windows"@ {
        "Nom de l'imprimante systeme Windows."@
    } else {
        "Selectionnez un type d'imprimante pour voir l'aide."@
    }
}

/// The exact suggestion list for a transport type; unknown types get none.
pub open spec fn suggestions_for(t: Seq<char>, r: Seq<Seq<char>>) -> bool {
    if t == "Serial"@ {
        r == seq!["/dev/ttyUSB0"@, "/dev/ttyUSB1"@, "/dev/ttyACM0"@, "/dev/ttyACM1"@]
    } else if t == "Network"@ {
        r == seq![
            "192.168.1.100:9100"@, "192.168.1.101:9100"@, "192.168.0.100:9100"@,
            "10.0.0.100:9100"@,
        ]
    } else if t == "Windows"@ {
        r == seq!["Imprimante par defaut"@, "HP LaserJet"@, "Canon PIXMA"@, "Epson L3150"@]
    } else if t == "USB"@ {
        r == seq!["USB001"@, "USB002"@, "AUTO"@]
    } else {
        r == Seq::<Seq<char>>::empty()
    }
}

/// An acceptable paper-width text: the decimal form of 32, 48 or 64.
pub open spec fn width_ok(s: Seq<char>) -> bool {
    dec_val_of(s) == Some(32int) || dec_val_of(s) == Some(48int) || dec_val_of(s) == Some(64int)
}

/// An acceptable endpoint port number: decimal, non-zero, at most 65535.
pub open spec fn port_num_ok(s: Seq<char>) -> bool {
    match dec_val_of(s) {
        Some(v) => 1 <= v <= 65535,
        None => false,
    }
}

/// Whether a dotted-quad IPv4 address has the right shape.
fn ipv4_check(s: &Vec<char>) -> (r: bool)
    ensures
        r == ipv4_ok(s@),
{
    let parts = split_on(s, '.');
    if parts.len() != 4 {
        return false;
    }
    proof {
        let pviews = parts@.map_values(|v: Vec<char>| v@);
        assert(pviews[0] == parts@[0]@ && pviews[1] == parts@[1]@ && pviews[2] == parts@[2]@
            && pviews[3] == parts@[3]@);
    }
    let ok0 = ipv4_part_check(&parts[0]);
    let ok1 = ipv4_part_check(&parts[1]);
    let ok2 = ipv4_part_check(&parts[2]);
    let ok3 = ipv4_part_check(&parts[3]);
    ok0 && ok1 && ok2 && ok3
}

fn ipv4_part_check(p: &Vec<char>) -> (r: bool)
    ensures
        r == ipv4_part_ok(p@),
{
    if p.len() < 1 || p.len() > 3 {
        return false;
    }
    let mut k: usize = 0;
    while k < p.len()
        invariant
            1 <= p@.len() <= 3,
            k <= p@.len(),
            forall|j: int| 0 <= j < k ==> crate::dates::is_digit(#[trigger] p@[j]),
        decreases p@.len() - k,
    {
        let u = p[k] as u32;
        if !(48 <= u && u <= 57) {
            assert(!crate::dates::is_digit(p@[k as int]));
            assert(!all_digits(p@));
            return false;
        }
        k = k + 1;
    }
    assert(all_digits(p@));
    proof {
        lemma_small_digits(p@);
    }
    let v = match parse_u64(p) {
        Some(v) => v,
        None => {
            proof {
                assert(p@[0] != '+');
                assert(dec_val_of(p@) == Some(crate::text::digits_val(p@)));
                assert(false);
            }
            0
        },
    };
    proof {
        assert(p@[0] != '+');
        assert(dec_val_of(p@) == Some(crate::text::digits_val(p@)));
    }
    if v > 255 {
        return false;
    }
    if p.len() > 1 && p[0] == '0' {
        return false;
    }
    true
}

/// At most three digits value under a thousand.
proof fn lemma_small_digits(p: Seq<char>)
    requires
        all_digits(p),
        p.len() <= 3,
    ensures
        crate::text::digits_val(p) >= 0,
        crate::text::digits_val(p) < 1000,
        p.len() <= 2 ==> crate::text::digits_val(p) < 100,
        p.len() <= 1 ==> crate::text::digits_val(p) < 10,
    decreases p.len(),
{
    if p.len() > 0 {
        assert(all_digits(p.drop_last())) by {
            assert forall|k: int| 0 <= k < p.len() - 1 implies crate::dates::is_digit(
                #[trigger] p.drop_last()[k],
            ) by {
                assert(p.drop_last()[k] == p[k]);
            }
        }
        lemma_small_digits(p.drop_last());
        assert(crate::text::digits_val(p) >= 0 && crate::text::digits_val(p) < 10
            * (if p.len() <= 1 { 1int } else if p.len() <= 2 { 10int } else { 100int }))
            by (nonlinear_arith)
            requires
                p.len() >= 1,
                crate::text::digits_val(p) == crate::text::digits_val(p.drop_last()) * 10 + ((
                p.last() as u32) - 48),
                crate::text::digits_val(p.drop_last()) < (if p.len() <= 1 { 1int } else if p.len()
                    <= 2 { 10int } else { 100int }),
                crate::text::digits_val(p.drop_last()) >= 0,
                48 <= (p.last() as u32) <= 57,
        ;
    }
}


/// Reads a paper width from a selection label: a label starting with
/// `32`, `48` or `64` selects that width, anything else the default 48.
pub fn parse_paper_width(width_selection: &str) -> (r: u32)
    ensures
        r as int == paper_width_of(width_selection@),
{
    let n = width_selection.unicode_len();
    if n < 2 {
        proof {
            reveal_strlit("32");
            reveal_strlit("48");
            reveal_strlit("64");
        }
        return 48;
    }
    let prefix = width_selection.substring_char(0, 2);
    if str_eq(prefix, "32") {
        32
    } else if str_eq(prefix, "48") {
        48
    } else if str_eq(prefix, "64") {
        64
    } else {
        48
    }
}

/// The width a selection label stands for.
pub open spec fn paper_width_of(s: Seq<char>) -> int {
    if s.len() >= 2 && s.subrange(0, 2) == "32"@ {
        32
    } else if s.len() >= 2 && s.subrange(0, 2) == "48"@ {
        48
    } else if s.len() >= 2 && s.subrange(0, 2) == "64"@ {
        64
    } else {
        48
    }
}


/// Reads a transport type from its text; anything unknown is serial,
/// as the configuration screen does.
pub fn printer_type_from_text(t: &str) -> (r: PrinterType)
    ensures
        r == (if t@ == "USB"@ {
            PrinterType::USB
        } else if t@ == "Network"@ {
            PrinterType::Network
        } else if t@ == "Windows"@ {
            PrinterType::Windows
        } else {
            PrinterType::Serial
        }),
{
    if str_eq(t, "USB") {
        PrinterType::USB
    } else if str_eq(t, "Network") {
        PrinterType::Network
    } else if str_eq(t, "Windows") {
        PrinterType::Windows
    } else {
        PrinterType::Serial
    }
}

/// The text of a transport type.
pub fn printer_type_text(t: &PrinterType) -> (r: &'static str)
    ensures
        r@ == match t {
            PrinterType::Serial => "Serial"@,
            PrinterType::USB => "USB"@,
            PrinterType::Network => "Network"@,
            PrinterType::Windows => "Windows"@,
        },
{
    match t {
        PrinterType::Serial => "Serial",
        PrinterType::USB => "USB",
        PrinterType::Network => "Network",
        PrinterType::Windows => "Windows",
    }
}

/// Builds a configuration from screen fields: the transport from its
/// text, and the paper width from its digits with 48 as the fallback.
pub fn config_from_fields(
    name: String,
    port: String,
    type_text: &str,
    width_text: &str,
    is_default: bool,
) -> (r: PrinterConfig)
    ensures
        r.name == name,
        r.port == port,
        r.is_default == is_default,
        r.paper_width as int == (match dec_val_of(width_text@) {
            Some(v) => if 0 <= v <= u32::MAX {
                v
            } else {
                48
            },
            None => 48,
        }),
{
    let printer_type = printer_type_from_text(type_text);
    let cs = chars_of(width_text);
    let paper_width: u32 = match parse_u64(&cs) {
        Some(v) => {
            if v <= u32::MAX as u64 {
                v as u32
            } else {
                48
            }
        },
        None => 48,
    };
    PrinterConfig { name, port, printer_type, paper_width, is_default }
}

} // verus!
