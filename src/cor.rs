use vstd::prelude::*;
use vstd::string::StringExecFns;

verus! {

/// The eight basic terminal colors.
#[derive(Debug, Clone, Copy, PartialEq, Eq, Structural)]
pub enum Cor {
    Preto,
    Vermelho,
    Verde,
    Amarelo,
    Azul,
    Magenta,
    Ciano,
    Branco,
}

/// The ANSI digit of a color (0 for black up to 7 for white).
pub open spec fn digito(c: Cor) -> char {
    match c {
        Cor::Preto => '0',
        Cor::Vermelho => '1',
        Cor::Verde => '2',
        Cor::Amarelo => '3',
        Cor::Azul => '4',
        Cor::Magenta => '5',
        Cor::Ciano => '6',
        Cor::Branco => '7',
    }
}

/// The escape sequence that selects foreground `fg` and background `bg`.
pub open spec fn sequencia_escape(fg: Cor, bg: Cor) -> Seq<char> {
    seq!['\x1b', '[', '3', digito(fg), ';', '4', digito(bg), 'm']
}

fn digito_str(c: Cor) -> (r: &'static str)
    ensures
        r@ == seq![digito(c)],
{
    match c {
        Cor::Preto => {
            proof { reveal_strlit("0"); }
            "0"
        },
        Cor::Vermelho => {
            proof { reveal_strlit("1"); }
            "1"
        },
        Cor::Verde => {
            proof { reveal_strlit("2"); }
            "2"
        },
        Cor::Amarelo => {
            proof { reveal_strlit("3"); }
            "3"
        },
        Cor::Azul => {
            proof { reveal_strlit("4"); }
            "4"
        },
        Cor::Magenta => {
            proof { reveal_strlit("5"); }
            "5"
        },
        Cor::Ciano => {
            proof { reveal_strlit("6"); }
            "6"
        },
        Cor::Branco => {
            proof { reveal_strlit("7"); }
            "7"
        },
    }
}

impl Cor {
    /// ANSI escape sequence `ESC [ 3<fg> ; 4<bg> m`.
    pub fn codigo(fg: Self, bg: Self) -> (r: String)
        ensures
            r@ == sequencia_escape(fg, bg),
    {
        let mut s = String::from_str("\x1b[3");
        s.append(digito_str(fg));
        s.append(";4");
        s.append(digito_str(bg));
        s.append("m");
        proof {
            reveal_strlit("\x1b[3");
            reveal_strlit(";4");
            reveal_strlit("m");
            assert(s@ =~= sequencia_escape(fg, bg));
        }
        s
    }
}

} // verus!
