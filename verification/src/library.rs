//! The library: every word of Yu, what it does and a short example, in Ukrainian and English.
use vstd::prelude::*;
use crate::builtins::{Builtin, NAMES};
use crate::keywords::Keyword;
use crate::lang::Lang;

verus! {

/// A part of the library.
#[derive(Debug, Clone, Copy, PartialEq, Eq, Structural)]
pub enum Section {
    Basics,
    Conditions,
    Loops,
    Functions,
    Lists,
    Drawing,
    Turtle,
}

impl Section {
    /// Every section, in the order the library shows them.
    pub const ALL: [Section; 7] = [
        Section::Basics,
        Section::Conditions,
        Section::Loops,
        Section::Functions,
        Section::Lists,
        Section::Drawing,
        Section::Turtle,
    ];

    pub open spec fn spec_id(self) -> Seq<char> {
        match self {
            Section::Basics => "basics"@,
            Section::Conditions => "conditions"@,
            Section::Loops => "loops"@,
            Section::Functions => "functions"@,
            Section::Lists => "lists"@,
            Section::Drawing => "drawing"@,
            Section::Turtle => "turtle"@,
        }
    }

    /// A short name for the page, e.g. `loops`.
    pub fn id(self) -> (r: &'static str)
        ensures
            r@ == self.spec_id(),
    {
        match self {
            Section::Basics => "basics",
            Section::Conditions => "conditions",
            Section::Loops => "loops",
            Section::Functions => "functions",
            Section::Lists => "lists",
            Section::Drawing => "drawing",
            Section::Turtle => "turtle",
        }
    }

    pub open spec fn spec_title(self, lang: Lang) -> Seq<char> {
        match self {
            Section::Basics => lang.choose_text("Основи"@, "Basics"@),
            Section::Conditions => lang.choose_text("Умови"@, "Conditions"@),
            Section::Loops => lang.choose_text("Цикли"@, "Loops"@),
            Section::Functions => lang.choose_text("Функції"@, "Functions"@),
            Section::Lists => lang.choose_text("Списки"@, "Lists"@),
            Section::Drawing => lang.choose_text("Малювання"@, "Drawing"@),
            Section::Turtle => lang.choose_text("Черепашка"@, "Turtle"@),
        }
    }

    /// The section's heading.
    pub fn title(self, lang: Lang) -> (r: &'static str)
        ensures
            r@ == self.spec_title(lang),
    {
        match self {
            Section::Basics => lang.pick("Основи", "Basics"),
            Section::Conditions => lang.pick("Умови", "Conditions"),
            Section::Loops => lang.pick("Цикли", "Loops"),
            Section::Functions => lang.pick("Функції", "Functions"),
            Section::Lists => lang.pick("Списки", "Lists"),
            Section::Drawing => lang.pick("Малювання", "Drawing"),
            Section::Turtle => lang.pick("Черепашка", "Turtle"),
        }
    }
}

/// What an entry explains: keywords that work together, or one built-in.
#[derive(Debug, Clone, Copy)]
pub enum Word {
    /// `name` and `form` are Ukrainian first, then English.
    Keywords { words: &'static [Keyword], name: [&'static str; 2], form: [&'static str; 2] },
    Builtin(Builtin),
}

/// One entry of the library; its text and example are Ukrainian first, then English.
#[derive(Debug, Clone, Copy)]
pub struct Entry {
    pub section: Section,
    pub word: Word,
    pub text: [&'static str; 2],
    pub example: [&'static str; 2],
}

/// How many entries the library has.
pub const ENTRY_COUNT: usize = 37;

/// The entries, section by section: the section, the word (below 24 the built-in of that row
/// of `NAMES`, from 24 on the keywords of that row of `GROUPS`, less 24), then the text and the
/// example, each in Ukrainian and English.
pub const ROWS: [(Section, usize, &'static str, &'static str, &'static str, &'static str); 37] = [
    (
        Section::Basics,
        0,
        "Друкує в терміналі те, що в дужках. Кілька значень через кому стають одним рядком, між ними пробіл.",
        "Prints what is in the brackets in the terminal. Several values separated by commas become one line with spaces between them.",
        "скажи(\"Привіт, світе!\")\nскажи(\"2 + 2 =\", 2 + 2)",
        "say(\"Hello, world!\")\nsay(\"2 + 2 =\", 2 + 2)",
    ),
    (
        Section::Basics,
        1,
        "Показує питання й чекає, поки людина введе відповідь. Відповідь завжди текст; щоб отримати число, загорни її в число(…).",
        "Shows a question and waits for the person to type an answer. The answer is always text; wrap it in number(…) to get a number.",
        "ім'я = запитай(\"Як тебе звати?\")\nскажи(\"Привіт, \" + ім'я + \"!\")",
        "name = ask(\"What is your name?\")\nsay(\"Hi, \" + name + \"!\")",
    ),
    (
        Section::Basics,
        4,
        "Перетворює значення на текст. Так можна, наприклад, дізнатися, скільки цифр у числі.",
        "Turns a value into text. That way you can, for example, count the digits of a number.",
        "рік = 2026\nскажи(\"У числі\", рік, \"цифр:\", довжина(текст(рік)))",
        "year = 2026\nsay(\"The number\", year, \"has\", length(text(year)), \"digits\")",
    ),
    (
        Section::Basics,
        3,
        "Перетворює текст на число, щоб із ним можна було рахувати. Десяткову частину можна відділити крапкою або комою.",
        "Turns text into a number you can calculate with. A decimal point or a comma both work.",
        "ціна = число(\"12,5\")\nскажи(\"Дві штуки коштують\", ціна * 2)",
        "price = number(\"12.5\")\nsay(\"Two of them cost\", price * 2)",
    ),
    (
        Section::Basics,
        6,
        "Округлює число до найближчого цілого: 2.4 стане 2, а 2.5 — 3.",
        "Rounds a number to the nearest whole number: 2.4 becomes 2 and 2.5 becomes 3.",
        "середнє = (7 + 8 + 10) / 3\nскажи(\"Середня оцінка:\", округли(середнє))",
        "average = (7 + 8 + 10) / 3\nsay(\"Average mark:\", round(average))",
    ),
    (
        Section::Basics,
        5,
        "Дає випадкове ціле число від a до b, обидва кінці включно. Щоразу інше.",
        "Gives a random whole number from a to b, both ends included. It is different every time.",
        "кубик = випадкове(1, 6)\nскажи(\"На кубику випало\", кубик)",
        "dice = random(1, 6)\nsay(\"The dice shows\", dice)",
    ),
    (
        Section::Conditions,
        24,
        "Виконує блок під собою, лише коли умова правдива. Блок — це рядки з відступом у чотири пробіли.",
        "Runs the block below it only when the condition is true. The block is the lines indented by four spaces.",
        "температура = 25\nякщо температура > 20:\n    скажи(\"Сьогодні тепло\")",
        "temperature = 25\nif temperature > 20:\n    say(\"It is warm today\")",
    ),
    (
        Section::Conditions,
        25,
        "Іде після якщо. Блок під інакше виконується, коли умова неправдива, а інакше якщо перевіряє ще одну умову.",
        "Comes after if. The block under else runs when the condition is false, and else if checks one more condition.",
        "бал = 7\nякщо бал >= 10:\n    скажи(\"Відмінно\")\nінакше якщо бал >= 6:\n    скажи(\"Добре\")\nінакше:\n    скажи(\"Спробуй ще\")",
        "score = 7\nif score >= 10:\n    say(\"Excellent\")\nelse if score >= 6:\n    say(\"Good\")\nelse:\n    say(\"Try again\")",
    ),
    (
        Section::Conditions,
        26,
        "Поєднують умови. «і» правдиве, коли правдиві обидві частини, «або» — коли хоч одна, а «не» перевертає так на ні й навпаки.",
        "Combine conditions. “and” is true when both parts are true, “or” when at least one is, and “not” turns true into false and back.",
        "вік = 12\nякщо вік > 6 і вік < 18:\n    скажи(\"Ходить до школи\")\nякщо вік < 6 або вік > 65:\n    скажи(\"Не ходить до школи\")\nскажи(\"Дорослий:\", не (вік < 18))",
        "age = 12\nif age > 6 and age < 18:\n    say(\"Goes to school\")\nif age < 6 or age > 65:\n    say(\"Does not go to school\")\nsay(\"Grown up:\", not (age < 18))",
    ),
    (
        Section::Conditions,
        27,
        "Два значення правди. Їх дають порівняння, а якщо й поки за ними вирішують, що робити.",
        "The two truth values. Comparisons give them, and if and while use them to decide what to do.",
        "сонце = так\nдощ = ні\nскажи(\"Сонце:\", сонце, \"Дощ:\", дощ)\nскажи(\"5 > 3:\", 5 > 3)",
        "sun = true\nrain = false\nsay(\"Sun:\", sun, \"Rain:\", rain)\nsay(\"5 > 3:\", 5 > 3)",
    ),
    (
        Section::Conditions,
        28,
        "Означає, що значення немає. Його повертає функція, у якій немає поверни.",
        "Means there is no value. A function without return gives it back.",
        "знахідка = нічого\nскажи(\"Знайшли:\", знахідка)",
        "found = nothing\nsay(\"Found:\", found)",
    ),
    (
        Section::Loops,
        29,
        "Повторює блок N разів. Після числа пиши раз, рази чи разів, як звучить природно: повтори 1 раз, повтори 3 рази, повтори 5 разів.",
        "Repeats the block N times. The word times after the number may be left out.",
        "зірочки = \"\"\nповтори 5 разів:\n    зірочки = зірочки + \"*\"\nскажи(зірочки)",
        "stars = \"\"\nrepeat 5 times:\n    stars = stars + \"*\"\nsay(stars)",
    ),
    (
        Section::Loops,
        30,
        "Повторює блок, поки умова правдива. Стеж, щоб умова колись стала неправдивою, бо інакше цикл не закінчиться.",
        "Repeats the block while the condition is true. Make sure the condition turns false at some point, or the loop never ends.",
        "гроші = 10\nпоки гроші >= 3:\n    гроші = гроші - 3\n    скажи(\"Купив морозиво, лишилось\", гроші)",
        "money = 10\nwhile money >= 3:\n    money = money - 3\n    say(\"Bought an ice cream,\", money, \"left\")",
    ),
    (
        Section::Loops,
        31,
        "Рахує від A до B, обидва кінці включно, і для кожного числа виконує блок. Крок можна не писати, тоді він 1.",
        "Counts from A to B, both ends included, and runs the block for each number. The step may be left out; then it is 1.",
        "для i від 1 до 3:\n    скажи(i, \"× 2 =\", i * 2)\nдля i від 0 до 20 крок 10:\n    скажи(i)",
        "for i from 1 to 3:\n    say(i, \"× 2 =\", i * 2)\nfor i from 0 to 20 step 10:\n    say(i)",
    ),
    (
        Section::Loops,
        32,
        "Проходить список по одному елементу: щоразу x — наступний елемент. Замість у можна писати в.",
        "Goes through a list one item at a time: each time x is the next item.",
        "для фрукт у [\"яблуко\", \"груша\", \"слива\"]:\n    скажи(\"У кошику:\", фрукт)",
        "for fruit in [\"apple\", \"pear\", \"plum\"]:\n    say(\"In the basket:\", fruit)",
    ),
    (
        Section::Loops,
        33,
        "Одразу виходить із циклу, навіть якщо він ще не закінчився.",
        "Leaves the loop at once, even if it has not finished.",
        "для i від 1 до 10:\n    якщо i == 4:\n        стоп\n    скажи(i)",
        "for i from 1 to 10:\n    if i == 4:\n        break\n    say(i)",
    ),
    (
        Section::Loops,
        34,
        "Пропускає решту блоку й одразу переходить до наступного повтору циклу.",
        "Skips the rest of the block and goes straight to the next round of the loop.",
        "для i від 1 до 6:\n    якщо i % 2 == 0:\n        далі\n    скажи(i, \"— непарне\")",
        "for i from 1 to 6:\n    if i % 2 == 0:\n        continue\n    say(i, \"is odd\")",
    ),
    (
        Section::Functions,
        35,
        "Дає блоку назву, щоб викликати його знову й знову. У дужках — параметри: значення, які функція отримує під час виклику.",
        "Gives a block a name so you can call it again and again. The brackets hold the parameters: values the function gets when it is called.",
        "функція привітай(ім'я):\n    скажи(\"Привіт, \" + ім'я)\n\nпривітай(\"Оля\")\nпривітай(\"Тарас\")",
        "function greet(name):\n    say(\"Hi, \" + name)\n\ngreet(\"Olya\")\ngreet(\"Taras\")",
    ),
    (
        Section::Functions,
        36,
        "Закінчує функцію й віддає значення туди, де її викликали.",
        "Ends the function and hands a value back to where it was called.",
        "функція квадрат(n):\n    поверни n * n\n\nскажи(\"5 у квадраті:\", квадрат(5))",
        "function square(n):\n    return n * n\n\nsay(\"5 squared:\", square(5))",
    ),
    (
        Section::Lists,
        2,
        "Скільки елементів у списку або символів у тексті.",
        "How many items a list has, or how many characters a text has.",
        "друзі = [\"Оля\", \"Тарас\", \"Марко\"]\nскажи(\"Друзів:\", довжина(друзі))\nскажи(\"Літер у слові Київ:\", довжина(\"Київ\"))",
        "friends = [\"Olya\", \"Taras\", \"Marko\"]\nsay(\"Friends:\", length(friends))\nsay(\"Letters in Kyiv:\", length(\"Kyiv\"))",
    ),
    (
        Section::Lists,
        7,
        "Додає значення в кінець списку. Елементи нумеруються з 1: список[1] — перший.",
        "Adds a value to the end of a list. Items are numbered from 1: list[1] is the first.",
        "покупки = [\"хліб\"]\nдодай(покупки, \"молоко\")\nскажи(покупки)\nскажи(\"Друге:\", покупки[2])",
        "shopping = [\"bread\"]\nappend(shopping, \"milk\")\nsay(shopping)\nsay(\"Second:\", shopping[2])",
    ),
    (
        Section::Drawing,
        8,
        "Змінює розмір полотна в пікселях. Спочатку воно 600 на 400; викликай полотно на самому початку програми.",
        "Changes the size of the canvas in pixels. It starts at 600 by 400; call canvas at the very beginning of the program.",
        "полотно(300, 300)\nфон(\"блакитний\")\nколір(\"жовтий\")\nколо(150, 150, 100)",
        "canvas(300, 300)\nbackground(\"lightblue\")\ncolor(\"yellow\")\ncircle(150, 150, 100)",
    ),
    (
        Section::Drawing,
        9,
        "Зафарбовує все полотно одним кольором. Назву кольору пиши в лапках.",
        "Paints the whole canvas one colour. Write the colour's name in quotes.",
        "фон(\"синій\")\nколір(\"жовтий\")\nпрямокутник(0, 200, 600, 200)",
        "background(\"blue\")\ncolor(\"yellow\")\nrect(0, 200, 600, 200)",
    ),
    (
        Section::Drawing,
        10,
        "Задає колір наступних фігур, ліній і написів. Підходить назва в будь-якому роді, \"#ff8800\" або \"випадковий\".",
        "Sets the colour of the next shapes, lines and labels. A colour name, \"#ff8800\" or \"random\" all work.",
        "колір(\"червона\")\nколо(200, 200, 80)\nколір(\"#ff8800\")\nколо(400, 200, 80)",
        "color(\"red\")\ncircle(200, 200, 80)\ncolor(\"#ff8800\")\ncircle(400, 200, 80)",
    ),
    (
        Section::Drawing,
        11,
        "Задає товщину ліній у пікселях: і для лінії, і для черепашки.",
        "Sets the width of lines in pixels, both for line and for the turtle.",
        "товщина(2)\nлінія(100, 150, 500, 150)\nтовщина(12)\nлінія(100, 250, 500, 250)",
        "thickness(2)\nline(100, 150, 500, 150)\nthickness(12)\nline(100, 250, 500, 250)",
    ),
    (
        Section::Drawing,
        12,
        "Малює зафарбоване коло: x і y — центр, радіус — відстань від центру до краю.",
        "Draws a filled circle: x and y are the centre, r is the distance from the centre to the edge.",
        "колір(\"червоний\")\nколо(300, 200, 80)",
        "color(\"red\")\ncircle(300, 200, 80)",
    ),
    (
        Section::Drawing,
        13,
        "Малює зафарбований прямокутник: x і y — лівий верхній кут, далі ширина й висота.",
        "Draws a filled rectangle: x and y are the top left corner, then the width and the height.",
        "колір(\"коричневий\")\nпрямокутник(200, 150, 200, 150)\nколір(\"червоний\")\nпрямокутник(270, 220, 60, 80)",
        "color(\"brown\")\nrect(200, 150, 200, 150)\ncolor(\"red\")\nrect(270, 220, 60, 80)",
    ),
    (
        Section::Drawing,
        14,
        "Малює пряму лінію від точки x1, y1 до точки x2, y2.",
        "Draws a straight line from the point x1, y1 to the point x2, y2.",
        "колір(\"зелений\")\nтовщина(6)\nлінія(100, 300, 300, 100)\nлінія(300, 100, 500, 300)",
        "color(\"green\")\nthickness(6)\nline(100, 300, 300, 100)\nline(300, 100, 500, 300)",
    ),
    (
        Section::Drawing,
        15,
        "Пише текст на полотні; x і y — лівий верхній кут напису.",
        "Writes text on the canvas; x and y are the top left corner of the text.",
        "колір(\"синій\")\nнапис(\"Привіт від Yu\", 220, 190)",
        "color(\"blue\")\nlabel(\"Hello from Yu\", 220, 190)",
    ),
    (
        Section::Turtle,
        16,
        "Черепашка йде вперед на n пікселів і малює лінію, якщо перо опущене. Вона починає в центрі й дивиться праворуч.",
        "The turtle walks n pixels ahead and draws a line while the pen is down. It starts in the centre, facing right.",
        "колір(\"синій\")\nвперед(150)",
        "color(\"blue\")\nforward(150)",
    ),
    (
        Section::Turtle,
        17,
        "Черепашка йде назад на n пікселів, не розвертаючись.",
        "The turtle walks n pixels backwards without turning around.",
        "вперед(100)\nназад(200)",
        "forward(100)\nback(200)",
    ),
    (
        Section::Turtle,
        18,
        "Черепашка повертає праворуч, за годинниковою стрілкою, на стільки градусів.",
        "The turtle turns right, clockwise, by that many degrees.",
        "повтори 4 рази:\n    вперед(120)\n    праворуч(90)",
        "repeat 4 times:\n    forward(120)\n    right(90)",
    ),
    (
        Section::Turtle,
        19,
        "Черепашка повертає ліворуч, проти годинникової стрілки, на стільки градусів.",
        "The turtle turns left, anticlockwise, by that many degrees.",
        "повтори 3 рази:\n    вперед(150)\n    ліворуч(120)",
        "repeat 3 times:\n    forward(150)\n    left(120)",
    ),
    (
        Section::Turtle,
        20,
        "Черепашка далі ходить, але не малює, доки не опустиш перо.",
        "The turtle keeps walking but stops drawing until you put the pen down.",
        "вперед(60)\nпідніми_перо()\nвперед(40)\nопусти_перо()\nвперед(60)",
        "forward(60)\npen_up()\nforward(40)\npen_down()\nforward(60)",
    ),
    (
        Section::Turtle,
        21,
        "Черепашка знову малює, коли йде. На початку перо вже опущене.",
        "The turtle draws again as it walks. At the start the pen is already down.",
        "підніми_перо()\nназад(200)\nопусти_перо()\nвперед(400)",
        "pen_up()\nback(200)\npen_down()\nforward(400)",
    ),
    (
        Section::Turtle,
        22,
        "Починає запам'ятовувати шлях черепашки, щоб потім зафарбувати фігуру всередині.",
        "Starts recording the turtle's path so the shape inside can be filled later.",
        "колір(\"жовтий\")\nпочни_заливку()\nповтори 5 разів:\n    вперед(200)\n    праворуч(144)\nзаверши_заливку()",
        "color(\"yellow\")\nbegin_fill()\nrepeat 5 times:\n    forward(200)\n    right(144)\nend_fill()",
    ),
    (
        Section::Turtle,
        23,
        "Зафарбовує поточним кольором фігуру, яку черепашка обійшла після почни_заливку.",
        "Fills the shape the turtle walked around since begin_fill with the current colour.",
        "колір(\"зелений\")\nпочни_заливку()\nповтори 3 рази:\n    вперед(160)\n    ліворуч(120)\nзаверши_заливку()",
        "color(\"green\")\nbegin_fill()\nrepeat 3 times:\n    forward(160)\n    left(120)\nend_fill()",
    ),
];

/// The keywords that work together, as the library names them and shows how to write them,
/// Ukrainian first: up to four keywords, how many there are, the names and the forms.
pub const GROUPS: [(Keyword, Keyword, Keyword, Keyword, usize, &'static str, &'static str, &'static str, &'static str); 13] = [
    (
        Keyword::If,
        Keyword::If,
        Keyword::If,
        Keyword::If,
        1,
        "якщо",
        "if",
        "якщо умова:",
        "if condition:",
    ),
    (
        Keyword::Else,
        Keyword::Else,
        Keyword::Else,
        Keyword::Else,
        1,
        "інакше",
        "else",
        "інакше: · інакше якщо умова:",
        "else: · else if condition:",
    ),
    (
        Keyword::And,
        Keyword::Or,
        Keyword::Not,
        Keyword::Not,
        3,
        "і · або · не",
        "and · or · not",
        "a і b · a або b · не a",
        "a and b · a or b · not a",
    ),
    (
        Keyword::True,
        Keyword::False,
        Keyword::False,
        Keyword::False,
        2,
        "так · ні",
        "true · false",
        "так · ні",
        "true · false",
    ),
    (
        Keyword::Nothing,
        Keyword::Nothing,
        Keyword::Nothing,
        Keyword::Nothing,
        1,
        "нічого",
        "nothing",
        "нічого",
        "nothing",
    ),
    (
        Keyword::Repeat,
        Keyword::Times,
        Keyword::Times,
        Keyword::Times,
        2,
        "повтори … разів",
        "repeat … times",
        "повтори N разів:",
        "repeat N times:",
    ),
    (
        Keyword::While,
        Keyword::While,
        Keyword::While,
        Keyword::While,
        1,
        "поки",
        "while",
        "поки умова:",
        "while condition:",
    ),
    (
        Keyword::For,
        Keyword::From,
        Keyword::To,
        Keyword::Step,
        4,
        "для … від … до",
        "for … from … to",
        "для i від A до B крок S:",
        "for i from A to B step S:",
    ),
    (
        Keyword::For,
        Keyword::In,
        Keyword::In,
        Keyword::In,
        2,
        "для … у",
        "for … in",
        "для x у список:",
        "for x in list:",
    ),
    (
        Keyword::Break,
        Keyword::Break,
        Keyword::Break,
        Keyword::Break,
        1,
        "стоп",
        "break",
        "стоп",
        "break",
    ),
    (
        Keyword::Continue,
        Keyword::Continue,
        Keyword::Continue,
        Keyword::Continue,
        1,
        "далі",
        "continue",
        "далі",
        "continue",
    ),
    (
        Keyword::Function,
        Keyword::Function,
        Keyword::Function,
        Keyword::Function,
        1,
        "функція",
        "function",
        "функція назва(параметри):",
        "function name(parameters):",
    ),
    (
        Keyword::Return,
        Keyword::Return,
        Keyword::Return,
        Keyword::Return,
        1,
        "поверни",
        "return",
        "поверни значення",
        "return value",
    ),
];

/// The keywords of row `g` of `GROUPS`.
pub open spec fn group_words(g: int) -> Seq<Keyword> {
    let r = GROUPS[g];
    seq![r.0, r.1, r.2, r.3].take(r.4 as int)
}

fn group_slice(g: usize) -> (r: &'static [Keyword])
    requires
        g < 13,
    ensures
        r@ == group_words(g as int),
{
    let r: &'static [Keyword] = match g {
        0 => &[Keyword::If],
        1 => &[Keyword::Else],
        2 => &[Keyword::And, Keyword::Or, Keyword::Not],
        3 => &[Keyword::True, Keyword::False],
        4 => &[Keyword::Nothing],
        5 => &[Keyword::Repeat, Keyword::Times],
        6 => &[Keyword::While],
        7 => &[Keyword::For, Keyword::From, Keyword::To, Keyword::Step],
        8 => &[Keyword::For, Keyword::In],
        9 => &[Keyword::Break],
        10 => &[Keyword::Continue],
        11 => &[Keyword::Function],
        _ => &[Keyword::Return],
    };
    proof {
        assert(r@ =~= group_words(g as int));
    }
    r
}

/// `w` is the word that code `code` of `ROWS` stands for.
pub open spec fn word_is(w: Word, code: usize) -> bool {
    match w {
        Word::Builtin(b) => code < 24 && b == NAMES[code as int].0,
        Word::Keywords { words, name, form } => {
            let g = code - 24;
            &&& 24 <= code < 37
            &&& words@ == group_words(g)
            &&& name[0] == GROUPS[g].5
            &&& name[1] == GROUPS[g].6
            &&& form[0] == GROUPS[g].7
            &&& form[1] == GROUPS[g].8
        },
    }
}

impl Entry {
    /// The word as the library shows it: `коло` or `повтори … разів`.
    pub open spec fn spec_name(&self, lang: Lang) -> Seq<char> {
        match self.word {
            Word::Keywords { name, .. } => lang.choose_text(name[0]@, name[1]@),
            Word::Builtin(b) => b.spec_name(lang),
        }
    }

    /// The word as the library shows it: `коло` or `повтори … разів`.
    pub fn name(&self, lang: Lang) -> (r: &'static str)
        ensures
            r@ == self.spec_name(lang),
    {
        match self.word {
            Word::Keywords { name, .. } => lang.pick(name[0], name[1]),
            Word::Builtin(b) => b.name(lang),
        }
    }

    /// How to write it: `коло(x, y, радіус)` or `повтори N разів:`.
    pub open spec fn spec_form(&self, lang: Lang) -> Seq<char> {
        match self.word {
            Word::Keywords { form, .. } => lang.choose_text(form[0]@, form[1]@),
            Word::Builtin(b) => b.spec_signature(lang),
        }
    }

    /// How to write it: `коло(x, y, радіус)` or `повтори N разів:`.
    pub fn form(&self, lang: Lang) -> (r: &'static str)
        ensures
            r@ == self.spec_form(lang),
    {
        match self.word {
            Word::Keywords { form, .. } => lang.pick(form[0], form[1]),
            Word::Builtin(b) => b.signature(lang),
        }
    }

    /// What it does, in a sentence or two.
    pub open spec fn spec_text(&self, lang: Lang) -> Seq<char> {
        lang.choose_text(self.text[0]@, self.text[1]@)
    }

    /// What it does, in a sentence or two.
    pub fn text(&self, lang: Lang) -> (r: &'static str)
        ensures
            r@ == self.spec_text(lang),
    {
        lang.pick(self.text[0], self.text[1])
    }

    /// A short program that uses it.
    pub open spec fn spec_example(&self, lang: Lang) -> Seq<char> {
        lang.choose_text(self.example[0]@, self.example[1]@)
    }

    /// A short program that uses it.
    pub fn example(&self, lang: Lang) -> (r: &'static str)
        ensures
            r@ == self.spec_example(lang),
    {
        lang.pick(self.example[0], self.example[1])
    }

    /// `self` is row `i` of `ROWS`.
    pub open spec fn is_row(&self, i: int) -> bool {
        &&& self.section == ROWS[i].0
        &&& word_is(self.word, ROWS[i].1)
        &&& self.spec_text(Lang::Uk) == ROWS[i].2@
        &&& self.spec_text(Lang::En) == ROWS[i].3@
        &&& self.spec_example(Lang::Uk) == ROWS[i].4@
        &&& self.spec_example(Lang::En) == ROWS[i].5@
    }
}

/// An entry about a built-in.
fn builtin(section: Section, b: Builtin, text: [&'static str; 2], example: [&'static str; 2]) -> (e: Entry)
    ensures
        e.section == section,
        e.word == Word::Builtin(b),
        e.text == text,
        e.example == example,
{
    Entry { section, word: Word::Builtin(b), text, example }
}

/// An entry about keywords that work together.
fn keywords(
    section: Section,
    words: &'static [Keyword],
    name: [&'static str; 2],
    form: [&'static str; 2],
    text: [&'static str; 2],
    example: [&'static str; 2],
) -> (e: Entry)
    ensures
        e.section == section,
        e.word == (Word::Keywords { words, name, form }),
        e.text == text,
        e.example == example,
{
    Entry { section, word: Word::Keywords { words, name, form }, text, example }
}

/// Entry `i` of the library.
pub fn entry(i: usize) -> (e: Entry)
    requires
        i < ENTRY_COUNT,
    ensures
        e.is_row(i as int),
{
    let r = ROWS[i];
    let code = r.1;
    proof {
        assert(ROWS[i as int].1 < 37);
    }
    let e = if code < 24 {
        builtin(r.0, NAMES[code].0, [r.2, r.3], [r.4, r.5])
    } else {
        let g = code - 24;
        let row = GROUPS[g];
        keywords(r.0, group_slice(g), [row.5, row.6], [row.7, row.8], [r.2, r.3], [r.4, r.5])
    };
    e
}

/// The name of row `i` of `ROWS` in `lang`.
pub open spec fn row_name(i: int, lang: Lang) -> Seq<char> {
    let code = ROWS[i].1;
    if code < 24 {
        NAMES[code as int].0.spec_name(lang)
    } else {
        lang.choose_text(GROUPS[code - 24].5@, GROUPS[code - 24].6@)
    }
}

/// How to write the word of row `i` of `ROWS` in `lang`.
pub open spec fn row_form(i: int, lang: Lang) -> Seq<char> {
    let code = ROWS[i].1;
    if code < 24 {
        NAMES[code as int].0.spec_signature(lang)
    } else {
        lang.choose_text(GROUPS[code - 24].7@, GROUPS[code - 24].8@)
    }
}

/// The text of row `i` of `ROWS` in `lang`.
pub open spec fn row_text(i: int, lang: Lang) -> Seq<char> {
    lang.choose_text(ROWS[i].2@, ROWS[i].3@)
}

/// The example of row `i` of `ROWS` in `lang`.
pub open spec fn row_example(i: int, lang: Lang) -> Seq<char> {
    lang.choose_text(ROWS[i].4@, ROWS[i].5@)
}

/// An entry of row `i` shows that row's name, form, text and example.
pub proof fn lemma_row_entry(e: Entry, i: int, lang: Lang)
    requires
        0 <= i < ENTRY_COUNT,
        e.is_row(i),
    ensures
        e.spec_name(lang) == row_name(i, lang),
        e.spec_form(lang) == row_form(i, lang),
        e.spec_text(lang) == row_text(i, lang),
        e.spec_example(lang) == row_example(i, lang),
{
    assert(ROWS[i].1 < 37);
}

/// Every entry, section by section.
pub fn entries() -> (r: Vec<Entry>)
    ensures
        r@.len() == ENTRY_COUNT,
        forall|i: int| 0 <= i < ENTRY_COUNT ==> (#[trigger] r@[i]).is_row(i),
{
    let mut r: Vec<Entry> = Vec::new();
    let mut i: usize = 0;
    while i < ENTRY_COUNT
        invariant
            i <= ENTRY_COUNT,
            r@.len() == i,
            forall|j: int| 0 <= j < i ==> (#[trigger] r@[j]).is_row(j),
        decreases ENTRY_COUNT - i,
    {
        r.push(entry(i));
        i += 1;
    }
    r
}

} // verus!
