use vstd::prelude::*;

verus! {

/// A resource vector of the five colours plus a colourless total.
/// Cost arithmetic lives here; the engine does not read it yet.
#[derive(Copy, Clone, Debug)]
pub struct Energy {
    pub red: i16,
    pub green: i16,
    pub white: i16,
    pub blue: i16,
    pub black: i16,
    pub total: i16,
}

impl Energy {
    pub fn new(red: i16, green: i16, white: i16, blue: i16, black: i16, total: i16) -> (r: Self)
        ensures
            r == (Energy { red, green, white, blue, black, total }),
    {
        Energy { red, green, white, blue, black, total }
    }

    pub fn red(red: i16) -> (r: Self)
        ensures
            r == (Energy { red, green: 0i16, white: 0i16, blue: 0i16, black: 0i16, total: red }),
    {
        Self::new(red, 0, 0, 0, 0, red)
    }

    pub fn green(green: i16) -> (r: Self)
        ensures
            r == (Energy { red: 0i16, green, white: 0i16, blue: 0i16, black: 0i16, total: green }),
    {
        Self::new(0, green, 0, 0, 0, green)
    }

    pub fn white(white: i16) -> (r: Self)
        ensures
            r == (Energy { red: 0i16, green: 0i16, white, blue: 0i16, black: 0i16, total: white }),
    {
        Self::new(0, 0, white, 0, 0, white)
    }

    pub fn blue(blue: i16) -> (r: Self)
        ensures
            r == (Energy { red: 0i16, green: 0i16, white: 0i16, blue, black: 0i16, total: blue }),
    {
        Self::new(0, 0, 0, blue, 0, blue)
    }

    pub fn black(black: i16) -> (r: Self)
        ensures
            r == (Energy { red: 0i16, green: 0i16, white: 0i16, blue: 0i16, black, total: black }),
    {
        Self::new(0, 0, 0, 0, black, black)
    }

    pub fn neutral(total: i16) -> (r: Self)
        ensures
            r == (Energy { red: 0i16, green: 0i16, white: 0i16, blue: 0i16, black: 0i16, total }),
    {
        Self::new(0, 0, 0, 0, 0, total)
    }

    /// An energy value is valid when no component is negative.
    pub fn is_valid(&self) -> (r: bool)
        ensures
            r == (self.red >= 0 && self.green >= 0 && self.white >= 0 && self.blue >= 0
                && self.black >= 0 && self.total >= 0),
    {
        self.red >= 0 && self.green >= 0 && self.white >= 0 && self.blue >= 0 && self.black >= 0
            && self.total >= 0
    }

    /// Componentwise sum.
    pub fn add(self, other: Self) -> (r: Self)
        requires
            i16::MIN <= self.red + other.red <= i16::MAX,
            i16::MIN <= self.green + other.green <= i16::MAX,
            i16::MIN <= self.white + other.white <= i16::MAX,
            i16::MIN <= self.blue + other.blue <= i16::MAX,
            i16::MIN <= self.black + other.black <= i16::MAX,
            i16::MIN <= self.total + other.total <= i16::MAX,
        ensures
            r.red == self.red + other.red,
            r.green == self.green + other.green,
            r.white == self.white + other.white,
            r.blue == self.blue + other.blue,
            r.black == self.black + other.black,
            r.total == self.total + other.total,
    {
        Self::new(
            self.red + other.red,
            self.green + other.green,
            self.white + other.white,
            self.blue + other.blue,
            self.black + other.black,
            self.total + other.total,
        )
    }

    /// Componentwise difference.
    pub fn sub(self, other: Self) -> (r: Self)
        requires
            i16::MIN <= self.red - other.red <= i16::MAX,
            i16::MIN <= self.green - other.green <= i16::MAX,
            i16::MIN <= self.white - other.white <= i16::MAX,
            i16::MIN <= self.blue - other.blue <= i16::MAX,
            i16::MIN <= self.black - other.black <= i16::MAX,
            i16::MIN <= self.total - other.total <= i16::MAX,
        ensures
            r.red == self.red - other.red,
            r.green == self.green - other.green,
            r.white == self.white - other.white,
            r.blue == self.blue - other.blue,
            r.black == self.black - other.black,
            r.total == self.total - other.total,
    {
        Self::new(
            self.red - other.red,
            self.green - other.green,
            self.white - other.white,
            self.blue - other.blue,
            self.black - other.black,
            self.total - other.total,
        )
    }

    /// Componentwise scaling.
    pub fn mul(self, other: i16) -> (r: Self)
        requires
            i16::MIN <= self.red * other <= i16::MAX,
            i16::MIN <= self.green * other <= i16::MAX,
            i16::MIN <= self.white * other <= i16::MAX,
            i16::MIN <= self.blue * other <= i16::MAX,
            i16::MIN <= self.black * other <= i16::MAX,
            i16::MIN <= self.total * other <= i16::MAX,
        ensures
            r.red == self.red * other,
            r.green == self.green * other,
            r.white == self.white * other,
            r.blue == self.blue * other,
            r.black == self.black * other,
            r.total == self.total * other,
    {
        Self::new(
            self.red * other,
            self.green * other,
            self.white * other,
            self.blue * other,
            self.black * other,
            self.total * other,
        )
    }
}

} // verus!
