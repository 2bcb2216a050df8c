<div class="flex items-center justify-between mb-2">
<h3 class="text-xs font-semibold text-muted-fg uppercase tracking-wider">{{ month_label }}</h3>
</div>
<div class="grid grid-cols-7 gap-0.5">
<div class="col-span-7 grid grid-cols-7 text-center text-xs text-muted-fg font-medium mb-0.5">
<span class="py-0.5">Mon</span><span class="py-0.5">Tue</span><span class="py-0.5">Wed</span><span class="py-0.5">Thu</span><span class="py-0.5">Fri</span><span class="py-0.5">Sat</span><span class="py-0.5">Sun</span>
</div>
{% for week in calendar_weeks %}
<div class="col-span-7 grid grid-cols-7 gap-0.5">
{% for day in week %}
{% if day.is_current_month and not day.is_future %}
<button hx-get="/search?date={{ day.date }}"
hx-target="#timeline"
hx-swap="innerHTML"
hx-on::after-request="_selectedCalendarDate='{{ day.date }}'; var d=document.getElementById('selected-calendar-date'); if(d)d.value='{{ day.date }}'; htmx.trigger('body', 'searchUpdated')"
class="relative flex items-center justify-center w-full aspect-square text-[11px] leading-none transition-colors rounded-lg
{% if day.is_selected %} bg-accent-600 dark:bg-accent-100 text-white dark:text-accent-800 font-semibold shadow-sm outline outline-2 outline-white dark:outline-white
{% elif day.has_memos %} text-accent-600 dark:text-accent-800 bg-accent-50 dark:bg-accent-200/80 font-medium hover:bg-accent-100 dark:hover:bg-accent-300/80
{% else %} text-muted-fg hover:bg-muted dark:hover:bg-muted{% endif %}">
{{ day.day }}
</button>
{% elif day.is_current_month and day.is_future %}
<div class="flex items-center justify-center w-full aspect-square text-[11px] text-muted-fg/40 dark:text-muted-fg/30 select-none">{{ day.day }}</div>
{% else %}
<div class="w-full aspect-square"></div>
{% endif %}
{% endfor %}
</div>
{% endfor %}
</div>